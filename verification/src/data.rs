//! The template data model: placeholder declarations, the manifest that lists
//! them, and the store of values supplied for them.

use vstd::prelude::*;

verus! {

/// One declared substitution point of a template: the literal token searched
/// for in template files, the prompt shown when a value is collected, whether
/// a value may be omitted, and an optional pattern that a supplied value must
/// match.
#[derive(Debug, Clone)]
pub struct PlaceHolder {
    pub target: String,
    pub prompt: String,
    pub optional: bool,
    pub regex: Option<String>,
}

/// Mathematical image of a `PlaceHolder`: the same fields over `Seq<char>`.
pub struct PlaceHolderV {
    pub target: Seq<char>,
    pub prompt: Seq<char>,
    pub optional: bool,
    pub regex: Option<Seq<char>>,
}

impl View for PlaceHolder {
    type V = PlaceHolderV;

    open spec fn view(&self) -> PlaceHolderV {
        PlaceHolderV {
            target: self.target@,
            prompt: self.prompt@,
            optional: self.optional,
            regex: match self.regex {
                Some(ref r) => Some(r@),
                None => None,
            },
        }
    }
}

impl DeepView for PlaceHolder {
    type V = PlaceHolderV;

    open spec fn deep_view(&self) -> PlaceHolderV {
        self.view()
    }
}

/// A template's manifest: display metadata, the relative path of the
/// directory holding the template payload, and the ordered list of declared
/// placeholders.
#[derive(Debug, Clone)]
pub struct TemplateManifest {
    pub name: String,
    pub author: String,
    pub description: String,
    pub src: String,
    pub placeholders: Vec<PlaceHolder>,
}

/// Mathematical image of a `TemplateManifest`.
pub struct TemplateManifestV {
    pub name: Seq<char>,
    pub author: Seq<char>,
    pub description: Seq<char>,
    pub src: Seq<char>,
    pub placeholders: Seq<PlaceHolderV>,
}

impl View for TemplateManifest {
    type V = TemplateManifestV;

    open spec fn view(&self) -> TemplateManifestV {
        TemplateManifestV {
            name: self.name@,
            author: self.author@,
            description: self.description@,
            src: self.src@,
            placeholders: self.placeholders.deep_view(),
        }
    }
}

impl DeepView for TemplateManifest {
    type V = TemplateManifestV;

    open spec fn deep_view(&self) -> TemplateManifestV {
        self.view()
    }
}

/// The store of supplied placeholder values: an association list from a
/// placeholder declaration to the text that should replace its token.
/// Entries are kept, and later applied, in insertion order.
#[derive(Debug, Clone)]
pub struct PlaceholderValues {
    pub entries: Vec<(PlaceHolder, String)>,
}

impl View for PlaceholderValues {
    type V = Seq<(PlaceHolderV, Seq<char>)>;

    open spec fn view(&self) -> Seq<(PlaceHolderV, Seq<char>)> {
        self.entries@.map(|i: int, e: (PlaceHolder, String)| (e.0@, e.1@))
    }
}

impl PlaceholderValues {
    /// An empty store.
    pub fn new() -> (r: PlaceholderValues)
        ensures
            r@ =~= Seq::<(PlaceHolderV, Seq<char>)>::empty(),
    {
        PlaceholderValues { entries: Vec::new() }
    }

    /// Adds one (placeholder, value) pair at the end of the store.
    pub fn insert(&mut self, placeholder: PlaceHolder, value: String)
        ensures
            final(self)@ =~= old(self)@.push((placeholder@, value@)),
    {
        self.entries.push((placeholder, value));
    }

    /// How many pairs the store holds.
    pub fn len(&self) -> (n: usize)
        ensures
            n == self@.len(),
    {
        self.entries.len()
    }
}

} // verus!
