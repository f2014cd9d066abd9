//! The embedding models that can be chosen, and how a choice is resolved.

use crate::text::same_text;
use vstd::prelude::*;

verus! {

/// What is known of a model.
#[derive(Debug, Clone, Copy)]
pub struct ModelInfo {
    pub alias: &'static str,
    pub name: &'static str,
    pub model_type: &'static str,
    pub size: &'static str,
    pub description: &'static str,
}

/// What is known of a model, as texts.
pub struct ModelView {
    pub alias: Seq<char>,
    pub name: Seq<char>,
    pub model_type: Seq<char>,
    pub size: Seq<char>,
    pub description: Seq<char>,
}

impl View for ModelInfo {
    type V = ModelView;

    open spec fn view(&self) -> ModelView {
        ModelView {
            alias: self.alias@,
            name: self.name@,
            model_type: self.model_type@,
            size: self.size@,
            description: self.description@,
        }
    }
}

/// The alias of the model that is taken where none is configured.
pub const DEFAULT_MODEL: &'static str = "bge-base";

/// The kind of a model that is named directly.
pub const REMOTE_KIND: &'static str = "sentence-transformers";

/// The suggested models, in the order in which they are listed.
pub open spec fn catalog() -> Seq<ModelView> {
    seq![
        ModelView {
            alias: "lite"@,
            name: "lite"@,
            model_type: "lite"@,
            size: "0MB"@,
            description: "N-gram hashing - zero dependencies, instant startup"@,
        },
        ModelView {
            alias: "minilm"@,
            name: "sentence-transformers/all-MiniLM-L6-v2"@,
            model_type: "sentence-transformers"@,
            size: "~90MB"@,
            description: "Fast general-purpose embeddings"@,
        },
        ModelView {
            alias: "bge-small"@,
            name: "BAAI/bge-small-en-v1.5"@,
            model_type: "sentence-transformers"@,
            size: "~130MB"@,
            description: "Small BGE model, good quality"@,
        },
        ModelView {
            alias: "bge-base"@,
            name: "BAAI/bge-base-en-v1.5"@,
            model_type: "sentence-transformers"@,
            size: "~400MB"@,
            description: "Default. Good balance of quality and speed"@,
        },
        ModelView {
            alias: "qwen-0.6b"@,
            name: "Qwen/Qwen3-Embedding-0.6B"@,
            model_type: "sentence-transformers"@,
            size: "~1.2GB"@,
            description: "Qwen 0.6B - efficient and capable"@,
        },
        ModelView {
            alias: "bge-large"@,
            name: "BAAI/bge-large-en-v1.5"@,
            model_type: "sentence-transformers"@,
            size: "~1.2GB"@,
            description: "Large BGE model, higher quality"@,
        },
        ModelView {
            alias: "qwen-4b"@,
            name: "Qwen/Qwen3-Embedding-4B"@,
            model_type: "sentence-transformers"@,
            size: "~8GB"@,
            description: "Qwen 4B - high quality, needs GPU"@,
        },
        ModelView {
            alias: "qwen-8b"@,
            name: "Qwen/Qwen3-Embedding-8B"@,
            model_type: "sentence-transformers"@,
            size: "~16GB"@,
            description: "Qwen 8B - best quality, needs GPU"@,
        },
    ]
}

/// The views of a list of models.
pub open spec fn model_views(models: Seq<ModelInfo>) -> Seq<ModelView> {
    Seq::new(models.len(), |i: int| models[i]@)
}

/// The suggested models.
pub fn suggested_models() -> (models: Vec<ModelInfo>)
    ensures
        model_views(models@) == catalog(),
{
    let mut models: Vec<ModelInfo> = Vec::new();
    models.push(
        ModelInfo {
            alias: "lite",
            name: "lite",
            model_type: "lite",
            size: "0MB",
            description: "N-gram hashing - zero dependencies, instant startup",
        },
    );
    models.push(
        ModelInfo {
            alias: "minilm",
            name: "sentence-transformers/all-MiniLM-L6-v2",
            model_type: "sentence-transformers",
            size: "~90MB",
            description: "Fast general-purpose embeddings",
        },
    );
    models.push(
        ModelInfo {
            alias: "bge-small",
            name: "BAAI/bge-small-en-v1.5",
            model_type: "sentence-transformers",
            size: "~130MB",
            description: "Small BGE model, good quality",
        },
    );
    models.push(
        ModelInfo {
            alias: "bge-base",
            name: "BAAI/bge-base-en-v1.5",
            model_type: "sentence-transformers",
            size: "~400MB",
            description: "Default. Good balance of quality and speed",
        },
    );
    models.push(
        ModelInfo {
            alias: "qwen-0.6b",
            name: "Qwen/Qwen3-Embedding-0.6B",
            model_type: "sentence-transformers",
            size: "~1.2GB",
            description: "Qwen 0.6B - efficient and capable",
        },
    );
    models.push(
        ModelInfo {
            alias: "bge-large",
            name: "BAAI/bge-large-en-v1.5",
            model_type: "sentence-transformers",
            size: "~1.2GB",
            description: "Large BGE model, higher quality",
        },
    );
    models.push(
        ModelInfo {
            alias: "qwen-4b",
            name: "Qwen/Qwen3-Embedding-4B",
            model_type: "sentence-transformers",
            size: "~8GB",
            description: "Qwen 4B - high quality, needs GPU",
        },
    );
    models.push(
        ModelInfo {
            alias: "qwen-8b",
            name: "Qwen/Qwen3-Embedding-8B",
            model_type: "sentence-transformers",
            size: "~16GB",
            description: "Qwen 8B - best quality, needs GPU",
        },
    );
    assert(model_views(models@) =~= catalog());
    models
}

/// The first position at or after `from` whose model has the alias `input`.
pub open spec fn alias_position(models: Seq<ModelView>, input: Seq<char>, from: int) -> Option<int>
    decreases models.len() - from,
{
    if from < 0 || from >= models.len() {
        None
    } else if models[from].alias == input {
        Some(from)
    } else {
        alias_position(models, input, from + 1)
    }
}

/// The canonical name and the kind that a configured model stands for: those
/// of the suggested model with that alias; else, for `lite`, the local
/// strategy; else the input itself, as the name of a remote model.
pub open spec fn resolved(input: Seq<char>) -> (Seq<char>, Seq<char>) {
    match alias_position(catalog(), input, 0) {
        Some(k) => (catalog()[k].name, catalog()[k].model_type),
        None => if input == "lite"@ {
            ("lite"@, "lite"@)
        } else {
            (input, REMOTE_KIND@)
        },
    }
}

/// The suggested models, each under its alias.
pub fn model_aliases() -> (table: Vec<(&'static str, ModelInfo)>)
    ensures
        table@.len() == catalog().len(),
        forall|k: int|
            0 <= k < table@.len() ==> (#[trigger] table@[k]).0@ == catalog()[k].alias && table@[k].1@
                == catalog()[k],
{
    let models = suggested_models();
    let mut table: Vec<(&'static str, ModelInfo)> = Vec::new();
    let n = models.len();
    let mut k: usize = 0;
    while k < n
        invariant
            k <= n,
            n == models@.len(),
            model_views(models@) == catalog(),
            table@.len() == k,
            forall|i: int|
                0 <= i < k ==> (#[trigger] table@[i]).0@ == catalog()[i].alias && table@[i].1@
                    == catalog()[i],
        decreases n - k,
    {
        assert(model_views(models@)[k as int] == models@[k as int]@);
        let m = &models[k];
        table.push(
            (
                m.alias,
                ModelInfo {
                    alias: m.alias,
                    name: m.name,
                    model_type: m.model_type,
                    size: m.size,
                    description: m.description,
                },
            ),
        );
        k += 1;
    }
    table
}

/// Resolves a configured model to its canonical name and its kind.
pub fn resolve_model(model_input: &str) -> (r: (String, String))
    ensures
        (r.0@, r.1@) == resolved(model_input@),
{
    let aliases = model_aliases();
    let n = aliases.len();
    let mut k: usize = 0;
    while k < n
        invariant
            k <= n,
            n == aliases@.len(),
            n == catalog().len(),
            forall|i: int|
                0 <= i < n ==> (#[trigger] aliases@[i]).0@ == catalog()[i].alias && aliases@[i].1@
                    == catalog()[i],
            alias_position(catalog(), model_input@, 0) == alias_position(
                catalog(),
                model_input@,
                k as int,
            ),
        decreases n - k,
    {
        if same_text(aliases[k].0, model_input) {
            let info = &aliases[k].1;
            return (String::from_str(info.name), String::from_str(info.model_type));
        }
        k += 1;
    }
    if same_text(model_input, "lite") {
        return (String::from_str("lite"), String::from_str("lite"));
    }
    (String::from_str(model_input), String::from_str(REMOTE_KIND))
}

/// The model that the embedding server is configured for: the configured
/// value where there is one, else the default, resolved.
pub fn get_server_model(configured: Option<&str>) -> (r: (String, String))
    ensures
        (r.0@, r.1@) == resolved(
            match configured {
                Some(m) => m@,
                None => DEFAULT_MODEL@,
            },
        ),
{
    match configured {
        Some(m) => resolve_model(m),
        None => resolve_model(DEFAULT_MODEL),
    }
}

/// A configured value.
#[derive(Debug)]
pub enum ConfigValue {
    /// A text.
    Text(String),
    /// A number, as it is written.
    Number(String),
    /// A truth value.
    Flag(bool),
    /// Anything else: a list, a table, nothing.
    Other,
}

/// A configured value, as mathematical values.
pub enum ValueView {
    Text(Seq<char>),
    Number(Seq<char>),
    Flag(bool),
    Other,
}

impl View for ConfigValue {
    type V = ValueView;

    open spec fn view(&self) -> ValueView {
        match self {
            ConfigValue::Text(s) => ValueView::Text(s@),
            ConfigValue::Number(s) => ValueView::Number(s@),
            ConfigValue::Flag(b) => ValueView::Flag(*b),
            ConfigValue::Other => ValueView::Other,
        }
    }
}

/// A key with its value.
#[derive(Debug)]
pub struct ConfigEntry {
    pub key: String,
    pub value: ConfigValue,
}

/// The configuration of one project: keys with their values.
#[derive(Debug)]
pub struct RootsConfig {
    entries: Vec<ConfigEntry>,
}

/// The text that a configured value reads as, where it has one.
pub open spec fn shown(value: ValueView) -> Option<Seq<char>> {
    match value {
        ValueView::Text(s) => Some(s),
        ValueView::Number(s) => Some(s),
        ValueView::Flag(b) => Some(
            if b {
                "true"@
            } else {
                "false"@
            },
        ),
        ValueView::Other => None,
    }
}

/// The model that a project is configured for: what its key
/// `embedding_model` reads as, else the default.
pub open spec fn configured_model(config: Map<Seq<char>, ValueView>) -> Seq<char> {
    if config.contains_key("embedding_model"@) {
        match shown(config["embedding_model"@]) {
            Some(m) => m,
            None => DEFAULT_MODEL@,
        }
    } else {
        DEFAULT_MODEL@
    }
}

/// The map that entries stand for; of two entries with one key the later
/// counts.
pub open spec fn entries_map(entries: Seq<ConfigEntry>) -> Map<Seq<char>, ValueView>
    decreases entries.len(),
{
    if entries.len() == 0 {
        Map::empty()
    } else {
        entries_map(entries.drop_last()).insert(entries.last().key@, entries.last().value@)
    }
}

impl View for RootsConfig {
    type V = Map<Seq<char>, ValueView>;

    closed spec fn view(&self) -> Map<Seq<char>, ValueView> {
        entries_map(self.entries@)
    }
}

impl RootsConfig {
    /// A configuration with no key.
    pub fn new() -> (c: Self)
        ensures
            c@ == Map::<Seq<char>, ValueView>::empty(),
    {
        RootsConfig { entries: Vec::new() }
    }

    /// The entries, for a durable copy; of two with one key the later counts.
    pub fn entries(&self) -> (out: &Vec<ConfigEntry>)
        ensures
            entries_map(out@) == self@,
    {
        &self.entries
    }

    /// Gives `key` the value `value`.
    pub fn insert(&mut self, key: &str, value: ConfigValue)
        ensures
            final(self)@ == old(self)@.insert(key@, value@),
    {
        self.entries.push(ConfigEntry { key: String::from_str(key), value });
        assert(self.entries@.drop_last() == old(self).entries@);
    }

    /// The value of `key`, where it has one that reads as a text.
    pub fn get(&self, key: &str) -> (r: Option<String>)
        ensures
            match r {
                Some(s) => self@.contains_key(key@) && shown(self@[key@]) == Some(s@),
                None => !self@.contains_key(key@) || shown(self@[key@]) is None,
            },
    {
        let mut i: usize = self.entries.len();
        assert(self.entries@.take(i as int) == self.entries@);
        while i > 0
            invariant
                i <= self.entries@.len(),
                self@.contains_key(key@) == entries_map(self.entries@.take(i as int)).contains_key(
                    key@,
                ),
                self@.contains_key(key@) ==> self@[key@] == entries_map(
                    self.entries@.take(i as int),
                )[key@],
            decreases i,
        {
            assert(self.entries@.take(i as int).drop_last() == self.entries@.take(i - 1));
            let entry = &self.entries[i - 1];
            if same_text(entry.key.as_str(), key) {
                return match &entry.value {
                    ConfigValue::Text(s) => Some(s.clone()),
                    ConfigValue::Number(s) => Some(s.clone()),
                    ConfigValue::Flag(b) => Some(
                        if *b {
                            String::from_str("true")
                        } else {
                            String::from_str("false")
                        },
                    ),
                    ConfigValue::Other => None,
                };
            }
            i -= 1;
        }
        None
    }

    /// Gives `key` the text `value`.
    pub fn set(&mut self, key: &str, value: &str)
        ensures
            final(self)@ == old(self)@.insert(key@, ValueView::Text(value@)),
    {
        self.insert(key, ConfigValue::Text(String::from_str(value)));
    }

    /// The model that the project is configured for.
    pub fn embedding_model(&self) -> (m: String)
        ensures
            m@ == configured_model(self@),
    {
        match self.get("embedding_model") {
            Some(m) => m,
            None => String::from_str(DEFAULT_MODEL),
        }
    }

    /// Configures the project for the model `value`.
    pub fn set_embedding_model(&mut self, value: &str)
        ensures
            final(self)@ == old(self)@.insert("embedding_model"@, ValueView::Text(value@)),
    {
        self.set("embedding_model", value);
    }

    /// The canonical name and the kind of the configured model.
    pub fn get_resolved_model(&self) -> (r: (String, String))
        ensures
            (r.0@, r.1@) == resolved(configured_model(self@)),
    {
        let model = self.embedding_model();
        resolve_model(model.as_str())
    }
}

} // verus!
