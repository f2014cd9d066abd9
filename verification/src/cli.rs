//! What the commands decide before anything is read or written: the hooks
//! to install, the tags that an argument names, the name of an exported file.

use crate::text::{chars_of, same_text, string_of, trim, trimmed};
use crate::types::texts;
use vstd::prelude::*;
use vstd::slice::slice_subrange;

verus! {

/// A command that the host editor runs at an event.
#[derive(Debug)]
pub struct Hook {
    pub event: String,
    pub command: String,
}

/// What the hooks command does.
#[derive(Debug)]
pub enum HookPlan {
    /// Take the hooks out of the settings.
    Remove,
    /// Put these hooks into the settings.
    Install(Vec<Hook>),
}

/// The command that finds context for each message in the mode `mode`.
pub open spec fn context_command(mode: Seq<char>) -> Seq<char> {
    "roots context --mode "@ + mode + " \"$CLAUDE_USER_PROMPT\""@
}

/// The hooks that are installed for the context mode `mode`: the priming
/// command at the start of a session and before a compaction, and, unless
/// the mode is `none`, the context command at each message.
pub open spec fn hooks_for(mode: Seq<char>) -> Seq<(Seq<char>, Seq<char>)> {
    let base = seq![("SessionStart"@, "roots prime"@), ("PreCompact"@, "roots prime"@)];
    if mode == "none"@ {
        base
    } else {
        base.push(("UserPromptSubmit"@, context_command(mode)))
    }
}

/// The hooks of a list, as texts.
pub open spec fn hook_views(hooks: Seq<Hook>) -> Seq<(Seq<char>, Seq<char>)> {
    Seq::new(hooks.len(), |i: int| (hooks[i].event@, hooks[i].command@))
}

/// Plans the hooks command: removal where `remove` is set, else the
/// installation of the hooks for `context_mode`.
pub fn run_hooks(remove: bool, context_mode: &str) -> (plan: HookPlan)
    ensures
        match plan {
            HookPlan::Remove => remove,
            HookPlan::Install(hooks) => !remove && hook_views(hooks@) == hooks_for(context_mode@),
        },
{
    if remove {
        return HookPlan::Remove;
    }
    let mut hooks: Vec<Hook> = Vec::new();
    hooks.push(
        Hook { event: String::from_str("SessionStart"), command: String::from_str("roots prime") },
    );
    hooks.push(
        Hook { event: String::from_str("PreCompact"), command: String::from_str("roots prime") },
    );
    if !same_text(context_mode, "none") {
        let command = String::from_str("roots context --mode ").concat(context_mode).concat(
            " \"$CLAUDE_USER_PROMPT\"",
        );
        hooks.push(Hook { event: String::from_str("UserPromptSubmit"), command });
    }
    assert(hook_views(hooks@) =~= hooks_for(context_mode@));
    HookPlan::Install(hooks)
}

/// The pieces of `s` between its commas, where `pending` is a piece already
/// begun; a text without a comma is one piece.
pub open spec fn pieces_from(s: Seq<char>, pending: Seq<char>) -> Seq<Seq<char>>
    decreases s.len(),
{
    if s.len() == 0 {
        seq![pending]
    } else if s.first() == ',' {
        seq![pending] + pieces_from(s.drop_first(), Seq::empty())
    } else {
        pieces_from(s.drop_first(), pending.push(s.first()))
    }
}

/// Each text without its leading and trailing whitespace.
pub open spec fn all_trimmed(pieces: Seq<Seq<char>>) -> Seq<Seq<char>> {
    Seq::new(pieces.len(), |i: int| trimmed(pieces[i]))
}

/// The tags that a comma-separated argument names: none for the empty text,
/// else each piece between commas, trimmed.
pub open spec fn parsed_tags(s: Seq<char>) -> Seq<Seq<char>> {
    if s.len() == 0 {
        Seq::empty()
    } else {
        all_trimmed(pieces_from(s, Seq::empty()))
    }
}

/// Reads the tags of a comma-separated argument.
pub fn parse_tags(tags: &str) -> (out: Vec<String>)
    ensures
        texts(out@) == parsed_tags(tags@),
{
    let v = chars_of(tags);
    let n = v.len();
    let mut out: Vec<String> = Vec::new();
    if n == 0 {
        assert(texts(out@) =~= parsed_tags(tags@));
        return out;
    }
    let ghost all = pieces_from(v@, Seq::empty());
    let mut start: usize = 0;
    let mut i: usize = 0;
    assert(v@.skip(0) == v@);
    assert(v@.subrange(0, 0) == Seq::<char>::empty());
    assert(texts(out@) == all_trimmed(Seq::<Seq<char>>::empty()));
    let ghost mut done: Seq<Seq<char>> = Seq::empty();
    while i < n
        invariant
            start <= i <= n,
            n == v@.len(),
            all == pieces_from(v@, Seq::empty()),
            all == done + pieces_from(v@.skip(i as int), v@.subrange(start as int, i as int)),
            texts(out@) == all_trimmed(done),
        decreases n - i,
    {
        let ghost rest = v@.skip(i as int);
        let ghost pending = v@.subrange(start as int, i as int);
        assert(rest.drop_first() == v@.skip(i + 1));
        assert(rest.first() == v@[i as int]);
        if v[i] == ',' {
            let piece = trim(slice_subrange(v.as_slice(), start, i));
            let ghost before = texts(out@);
            out.push(string_of(piece.as_slice()));
            proof {
                assert(texts(out@) == before.push(trimmed(pending)));
                assert(all_trimmed(done.push(pending)) == all_trimmed(done).push(trimmed(pending)));
                assert(done + (seq![pending] + pieces_from(rest.drop_first(), Seq::empty()))
                    == done.push(pending) + pieces_from(rest.drop_first(), Seq::empty()));
                done = done.push(pending);
            }
            start = i + 1;
            assert(v@.subrange(start as int, i + 1) == Seq::<char>::empty());
        } else {
            assert(v@.subrange(start as int, i + 1) == pending.push(v@[i as int]));
        }
        i += 1;
    }
    let piece = trim(slice_subrange(v.as_slice(), start, n));
    let ghost before = texts(out@);
    let ghost last = v@.subrange(start as int, n as int);
    out.push(string_of(piece.as_slice()));
    proof {
        assert(v@.skip(n as int).len() == 0);
        assert(texts(out@) == before.push(trimmed(last)));
        assert(all_trimmed(done.push(last)) == all_trimmed(done).push(trimmed(last)));
        assert(done + seq![last] == done.push(last));
    }
    out
}

/// The length of the part of `s` before its first line feed.
pub open spec fn line_len(s: Seq<char>) -> nat
    decreases s.len(),
{
    if s.len() == 0 || s.first() == '\n' {
        0
    } else {
        1 + line_len(s.drop_first())
    }
}

/// The first line of `s`, without its line ending: what stands before the
/// first line feed, less a carriage return right before that line feed.
pub open spec fn first_line_raw(s: Seq<char>) -> Seq<char> {
    let n = line_len(s) as int;
    if n < s.len() && n > 0 && s[n - 1] == '\r' {
        s.take(n - 1)
    } else {
        s.take(n)
    }
}

/// The first line of `s`, trimmed.
pub open spec fn first_line_of(s: Seq<char>) -> Seq<char> {
    trimmed(first_line_raw(s))
}

/// The first line of a text.
pub fn first_line(text: &[char]) -> (out: Vec<char>)
    ensures
        out@ == first_line_of(text@),
{
    let n = text.len();
    let mut i: usize = 0;
    assert(text@.skip(0) == text@);
    while i < n && text[i] != '\n'
        invariant
            i <= n,
            n == text@.len(),
            line_len(text@) == i + line_len(text@.skip(i as int)),
        decreases n - i,
    {
        assert(text@.skip(i as int).drop_first() == text@.skip(i + 1));
        i += 1;
    }
    let end = if i < n && i > 0 && text[i - 1] == '\r' {
        i - 1
    } else {
        i
    };
    assert(text@.subrange(0, end as int) == text@.take(end as int));
    trim(slice_subrange(text, 0, end))
}

/// The character that stands in a slug for `c`: a digit or a small letter
/// for itself, a capital letter for its small one, an underscore for any
/// other.
pub open spec fn slug_char(c: char) -> char {
    if '0' <= c <= '9' || 'a' <= c <= 'z' {
        c
    } else if 'A' <= c <= 'Z' {
        ((c as u8) + 32) as char
    } else {
        '_'
    }
}

/// `s` with every run of underscores made one and those at its start left
/// out.
pub open spec fn collapsed(s: Seq<char>) -> Seq<char>
    decreases s.len(),
{
    if s.len() == 0 {
        Seq::empty()
    } else {
        let r = collapsed(s.drop_last());
        if s.last() != '_' {
            r.push(s.last())
        } else if r.len() > 0 && r.last() != '_' {
            r.push('_')
        } else {
            r
        }
    }
}

/// `s` without the underscores at its end.
pub open spec fn without_trailing_underscores(s: Seq<char>) -> Seq<char>
    decreases s.len(),
{
    if s.len() > 0 && s.last() == '_' {
        without_trailing_underscores(s.drop_last())
    } else {
        s
    }
}

/// The slug characters of `s`.
pub open spec fn slug_chars(s: Seq<char>) -> Seq<char> {
    Seq::new(s.len(), |i: int| slug_char(s[i]))
}

/// The slug of a text for a file name: of the first `max_len` characters of
/// its first line the slug characters, runs of underscores made one, none at
/// the start or the end.
pub open spec fn slug_of(text: Seq<char>, max_len: nat) -> Seq<char> {
    let line = first_line_of(text);
    let head = if max_len < line.len() {
        line.take(max_len as int)
    } else {
        line
    };
    without_trailing_underscores(collapsed(slug_chars(head)))
}

/// Makes the slug character of `c`.
pub fn to_slug_char(c: char) -> (r: char)
    ensures
        r == slug_char(c),
{
    if ('0' <= c && c <= '9') || ('a' <= c && c <= 'z') {
        c
    } else if 'A' <= c && c <= 'Z' {
        ((c as u8) + 32) as char
    } else {
        '_'
    }
}

/// Makes a slug from content, for a file name.
pub fn slugify(text: &str, max_len: usize) -> (slug: String)
    ensures
        slug@ == slug_of(text@, max_len as nat),
{
    let chars = chars_of(text);
    let line = first_line(chars.as_slice());
    let n = if max_len < line.len() {
        max_len
    } else {
        line.len()
    };
    let ghost head = line@.take(n as int);
    let ghost mapped = slug_chars(head);
    let mut result: Vec<char> = Vec::new();
    let mut i: usize = 0;
    assert(mapped.take(0) == Seq::<char>::empty());
    while i < n
        invariant
            i <= n,
            n <= line@.len(),
            head == line@.take(n as int),
            mapped == slug_chars(head),
            result@ == collapsed(mapped.take(i as int)),
        decreases n - i,
    {
        let c = to_slug_char(line[i]);
        assert(mapped.take(i + 1).drop_last() == mapped.take(i as int));
        assert(mapped.take(i + 1).last() == c);
        if c != '_' {
            result.push(c);
        } else if result.len() > 0 && result[result.len() - 1] != '_' {
            result.push(c);
        }
        i += 1;
    }
    assert(mapped.take(n as int) == mapped);
    let mut end: usize = result.len();
    assert(result@.take(end as int) == result@);
    while end > 0 && result[end - 1] == '_'
        invariant
            end <= result@.len(),
            without_trailing_underscores(result@) == without_trailing_underscores(
                result@.take(end as int),
            ),
        decreases end,
    {
        assert(result@.take(end as int).drop_last() == result@.take(end - 1));
        end -= 1;
    }
    assert(result@.subrange(0, end as int) == result@.take(end as int));
    assert(line@.take(line@.len() as int) == line@);
    string_of(slice_subrange(result.as_slice(), 0, end))
}

} // verus!
