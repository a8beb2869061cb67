//! The engine's error type, manifest loading and validation, and the
//! validation performed before a template is instantiated: every non-optional
//! placeholder must have a supplied value, and every supplied value must
//! match its placeholder's pattern.

use vstd::prelude::*;
use vstd::string::*;

use crate::data::{PlaceHolder, PlaceHolderV, PlaceholderValues, TemplateManifest, TemplateManifestV};
use crate::json::{json_of, parse_json, JsonValue};

verus! {

/// Everything that can go wrong while resolving, caching, loading or
/// instantiating a template. Failures of outside collaborators (git
/// transport, filesystem, JSON reader) carry the collaborator's message.
#[derive(Debug, Clone)]
pub enum ExecError {
    /// No OS cache, local-data or data directory could be discovered.
    NoCacheFound,
    /// Cloning the template repository failed.
    GixCloneError(String),
    /// Fetching the template repository failed.
    GixFetchError(String),
    /// Checking out the template repository failed.
    GixCheckoutError(String),
    /// Enumerating the repository's submodules failed.
    GixSubmoduleError(String),
    /// A filesystem operation failed.
    IoError(String),
    /// Copying the template payload failed.
    CopyError(String),
    /// The manifest file could not be read as JSON of the expected shape.
    SerdeError(String),
    /// A placeholder's pattern is not a valid regular expression; carries the
    /// pattern.
    RegexError(String),
    /// Walking the destination directory failed.
    WalkDir(String),
    /// The cache path for the template does not exist.
    TemplateNotFound,
    /// The repository has no manifest file at its root.
    NoManifestFound,
    /// The directory named by the manifest's `src` field does not exist.
    NoSrcFolderFound,
    /// A supplied value does not match its placeholder's pattern: the value,
    /// the pattern, and the placeholder itself.
    PlaceholderDoesNotMatchRegex(String, String, PlaceHolder),
    /// Non-optional placeholders for which no value was supplied, in manifest
    /// order.
    MissingPlaceholders(Vec<PlaceHolder>),
}

/// Whether `pattern` is a valid regular expression. The compiler's verdict is
/// a function of the pattern alone, so it can be given this name.
pub uninterp spec fn regex_ok(pattern: Seq<char>) -> bool;

/// Whether `text` matches the regular expression `pattern`. The matcher's
/// verdict is a function of the two alone, so it can be given this name.
pub uninterp spec fn regex_matches(pattern: Seq<char>, text: Seq<char>) -> bool;

/// Relies on regex::Regex::new: compiling a pattern is deterministic, so its
/// success is a function of the pattern alone.
#[verifier::external_body]
pub(crate) fn regex_valid(pattern: &str) -> (r: bool)
    ensures
        r == regex_ok(pattern@),
{
    regex::Regex::new(pattern).is_ok()
}

/// Relies on regex::Regex::new and regex::Regex::is_match: a fresh compile of
/// the same pattern matches the same texts, so the verdict is a function of
/// pattern and text alone. Only called on patterns known to compile.
#[verifier::external_body]
pub(crate) fn regex_match(pattern: &str, text: &str) -> (r: bool)
    requires
        regex_ok(pattern@),
    ensures
        r == regex_matches(pattern@, text@),
{
    match regex::Regex::new(pattern) {
        Ok(re) => re.is_match(text),
        Err(_) => false,
    }
}

/// Character-for-character string comparison.
fn str_eq(a: &str, b: &str) -> (r: bool)
    ensures
        r == (a@ == b@),
{
    let n = a.unicode_len();
    let m = b.unicode_len();
    if n != m {
        return false;
    }
    let mut i: usize = 0;
    while i < n
        invariant
            i <= n,
            n == a@.len(),
            n == b@.len(),
            forall|k: int| 0 <= k < i ==> a@[k] == b@[k],
        decreases n - i,
    {
        if a.get_char(i) != b.get_char(i) {
            return false;
        }
        i = i + 1;
    }
    proof {
        assert(a@ =~= b@);
    }
    true
}

/// A field-for-field copy of a placeholder, with its image preserved.
pub fn clone_placeholder(p: &PlaceHolder) -> (r: PlaceHolder)
    ensures
        r@ == p@,
{
    PlaceHolder {
        target: p.target.clone(),
        prompt: p.prompt.clone(),
        optional: p.optional,
        regex: match p.regex {
            Some(ref rx) => Some(rx.clone()),
            None => None,
        },
    }
}

/// The value of the first member of a JSON object with the given key, if any.
pub open spec fn spec_lookup(fields: Seq<(String, JsonValue)>, key: Seq<char>) -> Option<JsonValue>
    decreases fields.len(),
{
    if fields.len() == 0 {
        None
    } else if fields[0].0@ == key {
        Some(fields[0].1)
    } else {
        spec_lookup(fields.drop_first(), key)
    }
}

/// The text of a string-typed member with the given key, if the member exists
/// and is a string.
pub open spec fn spec_string_field(fields: Seq<(String, JsonValue)>, key: Seq<char>) -> Option<
    Seq<char>,
> {
    match spec_lookup(fields, key) {
        Some(JsonValue::Str(s)) => Some(s@),
        _ => None,
    }
}

/// The placeholder declared by one JSON object: `match` and `prompt` are
/// required strings, `optional` is a boolean that defaults to false, `regex`
/// is an optional string (absent and null both mean none). Anything else is
/// a schema error.
pub open spec fn spec_placeholder_of(v: JsonValue) -> Option<PlaceHolderV> {
    match v {
        JsonValue::Object(fields) => {
            let target = spec_string_field(fields@, "match"@);
            let prompt = spec_string_field(fields@, "prompt"@);
            let optional = match spec_lookup(fields@, "optional"@) {
                None => Some(false),
                Some(JsonValue::Bool(b)) => Some(b),
                Some(_) => None,
            };
            let regex = match spec_lookup(fields@, "regex"@) {
                None => Some(None),
                Some(JsonValue::Null) => Some(None),
                Some(JsonValue::Str(s)) => Some(Some(s@)),
                Some(_) => None,
            };
            match (target, prompt, optional, regex) {
                (Some(t), Some(p), Some(o), Some(rx)) => Some(
                    PlaceHolderV { target: t, prompt: p, optional: o, regex: rx },
                ),
                _ => None,
            }
        },
        _ => None,
    }
}

/// The placeholders declared by a JSON array, each element an object as
/// above; one bad element fails the whole list.
pub open spec fn spec_placeholders_of(elems: Seq<JsonValue>) -> Option<Seq<PlaceHolderV>>
    decreases elems.len(),
{
    if elems.len() == 0 {
        Some(Seq::empty())
    } else {
        match (spec_placeholders_of(elems.drop_last()), spec_placeholder_of(elems.last())) {
            (Some(rest), Some(p)) => Some(rest.push(p)),
            _ => None,
        }
    }
}

/// The manifest declared by one JSON document: an object whose `name`,
/// `author`, `description` and `src` members are strings and whose
/// `placeholders` member is an array of placeholder objects. Anything else is
/// a schema error.
pub open spec fn spec_manifest_of(v: JsonValue) -> Option<TemplateManifestV> {
    match v {
        JsonValue::Object(fields) => {
            let name = spec_string_field(fields@, "name"@);
            let author = spec_string_field(fields@, "author"@);
            let description = spec_string_field(fields@, "description"@);
            let src = spec_string_field(fields@, "src"@);
            let ps = match spec_lookup(fields@, "placeholders"@) {
                Some(JsonValue::Array(elems)) => spec_placeholders_of(elems@),
                _ => None,
            };
            match (name, author, description, src, ps) {
                (Some(n), Some(a), Some(d), Some(s), Some(p)) => Some(
                    TemplateManifestV {
                        name: n,
                        author: a,
                        description: d,
                        src: s,
                        placeholders: p,
                    },
                ),
                _ => None,
            }
        },
        _ => None,
    }
}

/// First member of a JSON object with the given key, if any.
fn lookup<'a>(fields: &'a Vec<(String, JsonValue)>, key: &str) -> (r: Option<&'a JsonValue>)
    ensures
        match r {
            Some(v) => spec_lookup(fields@, key@) == Some(*v),
            None => spec_lookup(fields@, key@) is None,
        },
{
    let mut i: usize = 0;
    proof {
        assert(fields@.skip(0) =~= fields@);
    }
    while i < fields.len()
        invariant
            i <= fields@.len(),
            spec_lookup(fields@, key@) == spec_lookup(fields@.skip(i as int), key@),
        decreases fields@.len() - i,
    {
        let ghost rest = fields@.skip(i as int);
        proof {
            assert(rest[0] == fields@[i as int]);
            assert(rest.drop_first() =~= fields@.skip(i as int + 1));
        }
        if str_eq(fields[i].0.as_str(), key) {
            return Some(&fields[i].1);
        }
        i = i + 1;
    }
    None
}

/// The string payload of a string-typed member with the given key, cloned.
fn string_field(fields: &Vec<(String, JsonValue)>, key: &str) -> (r: Option<String>)
    ensures
        match r {
            Some(s) => spec_string_field(fields@, key@) == Some(s@),
            None => spec_string_field(fields@, key@) is None,
        },
{
    match lookup(fields, key) {
        Some(JsonValue::Str(s)) => Some(s.clone()),
        _ => None,
    }
}

/// Reads one placeholder declaration out of a JSON value.
fn placeholder_of(v: &JsonValue) -> (r: Option<PlaceHolder>)
    ensures
        match r {
            Some(p) => spec_placeholder_of(*v) == Some(p@),
            None => spec_placeholder_of(*v) is None,
        },
{
    let fields = match v {
        JsonValue::Object(fields) => fields,
        _ => {
            return None;
        },
    };
    let target = match string_field(fields, "match") {
        Some(s) => s,
        None => {
            return None;
        },
    };
    let prompt = match string_field(fields, "prompt") {
        Some(s) => s,
        None => {
            return None;
        },
    };
    let optional = match lookup(fields, "optional") {
        None => false,
        Some(JsonValue::Bool(b)) => *b,
        Some(_) => {
            return None;
        },
    };
    let regex = match lookup(fields, "regex") {
        None => None,
        Some(JsonValue::Null) => None,
        Some(JsonValue::Str(s)) => Some(s.clone()),
        Some(_) => {
            return None;
        },
    };
    Some(PlaceHolder { target, prompt, optional, regex })
}

/// Reads the whole placeholder list out of a JSON array.
fn placeholders_of(elems: &Vec<JsonValue>) -> (r: Option<Vec<PlaceHolder>>)
    ensures
        match r {
            Some(ps) => spec_placeholders_of(elems@) == Some(ps.deep_view()),
            None => spec_placeholders_of(elems@) is None,
        },
{
    let mut out: Vec<PlaceHolder> = Vec::new();
    let mut i: usize = 0;
    proof {
        assert(elems@.take(0) =~= Seq::<JsonValue>::empty());
        assert(out.deep_view() =~= Seq::<PlaceHolderV>::empty());
    }
    while i < elems.len()
        invariant
            i <= elems@.len(),
            spec_placeholders_of(elems@.take(i as int)) == Some(out.deep_view()),
        decreases elems@.len() - i,
    {
        let ghost prefix = elems@.take(i as int);
        let ghost out0 = out.deep_view();
        let p = match placeholder_of(&elems[i]) {
            Some(p) => p,
            None => {
                proof {
                    lemma_placeholders_of_bad(elems@, i as int);
                }
                return None;
            },
        };
        out.push(p);
        i = i + 1;
        proof {
            let prefix1 = elems@.take(i as int);
            assert(prefix1.drop_last() =~= prefix);
            assert(prefix1.last() == elems@[i - 1]);
            assert(out.deep_view() =~= out0.push(p@));
        }
    }
    proof {
        assert(elems@.take(elems@.len() as int) =~= elems@);
    }
    Some(out)
}

/// If one element of the array declares no valid placeholder, the whole array
/// declares no valid list.
proof fn lemma_placeholders_of_bad(elems: Seq<JsonValue>, i: int)
    requires
        0 <= i < elems.len(),
        spec_placeholder_of(elems[i]) is None,
    ensures
        spec_placeholders_of(elems.take(elems.len() as int)) is None,
        spec_placeholders_of(elems) is None,
    decreases elems.len(),
{
    assert(elems.take(elems.len() as int) =~= elems);
    if elems.len() > 0 {
        if i == elems.len() - 1 {
            assert(elems.last() == elems[i]);
        } else {
            lemma_placeholders_of_bad(elems.drop_last(), i);
            assert(elems.drop_last()[i] == elems[i]);
        }
    }
}

/// Parses a manifest out of the text of a manifest file: the text must be
/// valid JSON of the manifest's schema. On success the returned manifest is
/// exactly what the schema reads out of the document; everything else is a
/// read error.
pub fn parse_manifest(text: &str) -> (r: Result<TemplateManifest, ExecError>)
    ensures
        r matches Ok(m) ==> json_of(text@) matches Some(v) && spec_manifest_of(v) == Some(m@),
        r matches Err(e) ==> e matches ExecError::SerdeError(_) && match json_of(text@) {
            Some(v) => spec_manifest_of(v) is None,
            None => true,
        },
{
    let v = match parse_json(text) {
        Some(v) => v,
        None => {
            return Err(ExecError::SerdeError(String::from_str("the manifest is not valid JSON")));
        },
    };
    let fields = match &v {
        JsonValue::Object(fields) => fields,
        _ => {
            return Err(
                ExecError::SerdeError(String::from_str("the manifest is not a JSON object")),
            );
        },
    };
    let schema_err = "the manifest does not fit the expected schema";
    let name = match string_field(fields, "name") {
        Some(s) => s,
        None => {
            return Err(ExecError::SerdeError(String::from_str(schema_err)));
        },
    };
    let author = match string_field(fields, "author") {
        Some(s) => s,
        None => {
            return Err(ExecError::SerdeError(String::from_str(schema_err)));
        },
    };
    let description = match string_field(fields, "description") {
        Some(s) => s,
        None => {
            return Err(ExecError::SerdeError(String::from_str(schema_err)));
        },
    };
    let src = match string_field(fields, "src") {
        Some(s) => s,
        None => {
            return Err(ExecError::SerdeError(String::from_str(schema_err)));
        },
    };
    let placeholders = match lookup(fields, "placeholders") {
        Some(JsonValue::Array(elems)) => match placeholders_of(elems) {
            Some(ps) => ps,
            None => {
                return Err(ExecError::SerdeError(String::from_str(schema_err)));
            },
        },
        _ => {
            return Err(ExecError::SerdeError(String::from_str(schema_err)));
        },
    };
    Ok(TemplateManifest { name, author, description, src, placeholders })
}

/// Every pattern a placeholder list declares compiles.
pub open spec fn spec_regexes_ok(ps: Seq<PlaceHolderV>) -> bool {
    forall|k: int|
        0 <= k < ps.len() ==> match (#[trigger] ps[k]).regex {
            Some(rx) => regex_ok(rx),
            None => true,
        }
}

/// `k` is the first placeholder whose declared pattern does not compile.
pub open spec fn spec_first_bad_regex_at(ps: Seq<PlaceHolderV>, k: int) -> bool {
    0 <= k < ps.len() && match ps[k].regex {
        Some(rx) => !regex_ok(rx),
        None => false,
    } && forall|j: int|
        0 <= j < k ==> match (#[trigger] ps[j]).regex {
            Some(rx) => regex_ok(rx),
            None => true,
        }
}

/// Validates a loaded manifest against the cached repository: the directory
/// named by its `src` field must exist (`src_is_dir` reports that), and every
/// pattern its placeholders declare must compile. One bad pattern rejects the
/// whole manifest; a missing source directory rejects it before any pattern
/// is looked at.
pub fn validate_manifest(manifest: &TemplateManifest, src_is_dir: bool) -> (r: Result<
    (),
    ExecError,
>)
    ensures
        match r {
            Ok(()) => src_is_dir && spec_regexes_ok(manifest@.placeholders),
            Err(e) => match e {
                ExecError::NoSrcFolderFound => !src_is_dir,
                ExecError::RegexError(pat) => src_is_dir && !regex_ok(pat@) && exists|k: int|
                    #[trigger] spec_first_bad_regex_at(manifest@.placeholders, k)
                        && manifest@.placeholders[k].regex == Some(pat@),
                _ => false,
            },
        },
{
    if !src_is_dir {
        return Err(ExecError::NoSrcFolderFound);
    }
    let ps = &manifest.placeholders;
    let mut i: usize = 0;
    while i < ps.len()
        invariant
            src_is_dir,
            i <= ps@.len(),
            manifest@.placeholders == ps.deep_view(),
            ps.deep_view().len() == ps@.len(),
            forall|k: int|
                0 <= k < i ==> match (#[trigger] ps.deep_view()[k]).regex {
                    Some(rx) => regex_ok(rx),
                    None => true,
                },
        decreases ps@.len() - i,
    {
        match ps[i].regex {
            Some(ref rx) => {
                if !regex_valid(rx.as_str()) {
                    proof {
                        assert(ps.deep_view()[i as int] == ps@[i as int]@);
                        assert((manifest@.placeholders[i as int]).regex == Some(rx@));
                        assert(spec_first_bad_regex_at(manifest@.placeholders, i as int));
                    }
                    return Err(ExecError::RegexError(rx.clone()));
                }
            },
            None => {},
        }
        proof {
            assert(ps.deep_view()[i as int] == ps@[i as int]@);
        }
        i = i + 1;
    }
    Ok(())
}

/// Some entry of the store was supplied for this token.
pub open spec fn spec_has_value(entries: Seq<(PlaceHolderV, Seq<char>)>, target: Seq<char>) -> bool {
    exists|j: int| 0 <= j < entries.len() && (#[trigger] entries[j]).0.target == target
}

/// The non-optional placeholders of `ps`, in order, for whose token the store
/// holds no entry.
pub open spec fn spec_missing(
    ps: Seq<PlaceHolderV>,
    entries: Seq<(PlaceHolderV, Seq<char>)>,
) -> Seq<PlaceHolderV>
    decreases ps.len(),
{
    if ps.len() == 0 {
        Seq::empty()
    } else {
        let rest = spec_missing(ps.drop_last(), entries);
        if !ps.last().optional && !spec_has_value(entries, ps.last().target) {
            rest.push(ps.last())
        } else {
            rest
        }
    }
}

/// A store entry that fails the format check: its placeholder declares a
/// pattern and either the pattern does not compile or the value does not
/// match it.
pub open spec fn spec_entry_bad(e: (PlaceHolderV, Seq<char>)) -> bool {
    match e.0.regex {
        Some(rx) => !regex_ok(rx) || !regex_matches(rx, e.1),
        None => false,
    }
}

/// Every entry of the store passes the format check.
pub open spec fn spec_values_ok(entries: Seq<(PlaceHolderV, Seq<char>)>) -> bool {
    forall|j: int| 0 <= j < entries.len() ==> !spec_entry_bad(#[trigger] entries[j])
}

/// `j` is the first store entry that fails the format check.
pub open spec fn spec_first_bad_at(entries: Seq<(PlaceHolderV, Seq<char>)>, j: int) -> bool {
    0 <= j < entries.len() && spec_entry_bad(entries[j]) && forall|k: int|
        0 <= k < j ==> !spec_entry_bad(#[trigger] entries[k])
}

/// Whether the store holds an entry for this token.
fn has_value_for(values: &PlaceholderValues, target: &String) -> (r: bool)
    ensures
        r == spec_has_value(values@, target@),
{
    let mut j: usize = 0;
    while j < values.entries.len()
        invariant
            j <= values.entries@.len(),
            values@.len() == values.entries@.len(),
            forall|k: int| 0 <= k < j ==> (#[trigger] values@[k]).0.target != target@,
        decreases values.entries@.len() - j,
    {
        if str_eq(values.entries[j].0.target.as_str(), target.as_str()) {
            proof {
                assert(values@[j as int].0.target == target@);
            }
            return true;
        }
        proof {
            assert(values@[j as int].0.target != target@);
        }
        j = j + 1;
    }
    false
}

/// Collects, in manifest order, every non-optional placeholder for whose
/// token the store holds no entry: the batch completeness check, reporting
/// all violations at once.
pub fn find_missing_placeholders(manifest: &TemplateManifest, values: &PlaceholderValues) -> (r:
    Vec<PlaceHolder>)
    ensures
        r.deep_view() == spec_missing(manifest@.placeholders, values@),
{
    let ps = &manifest.placeholders;
    let mut out: Vec<PlaceHolder> = Vec::new();
    let mut i: usize = 0;
    proof {
        assert(ps.deep_view().take(0) =~= Seq::<PlaceHolderV>::empty());
        assert(out.deep_view() =~= Seq::<PlaceHolderV>::empty());
    }
    while i < ps.len()
        invariant
            i <= ps@.len(),
            manifest@.placeholders == ps.deep_view(),
            ps.deep_view().len() == ps@.len(),
            out.deep_view() == spec_missing(ps.deep_view().take(i as int), values@),
        decreases ps@.len() - i,
    {
        let ghost out0 = out.deep_view();
        let p = &ps[i];
        proof {
            assert(ps.deep_view()[i as int] == ps@[i as int]@);
        }
        if !p.optional && !has_value_for(values, &p.target) {
            out.push(clone_placeholder(p));
            proof {
                assert(out.deep_view() =~= out0.push(ps.deep_view()[i as int]));
            }
        }
        i = i + 1;
        proof {
            let prefix1 = ps.deep_view().take(i as int);
            assert(prefix1.drop_last() =~= ps.deep_view().take(i as int - 1));
            assert(prefix1.last() == ps.deep_view()[i as int - 1]);
        }
    }
    proof {
        assert(ps.deep_view().take(ps@.len() as int) =~= ps.deep_view());
    }
    out
}

/// The whole pre-instantiation validation. First the completeness check: all
/// non-optional placeholders must have an entry, every violation collected
/// into one `MissingPlaceholders` error, in manifest order. Then the format
/// check, over the store in entry order, stopping at the first offending
/// entry: an entry whose declared pattern does not compile fails with
/// `RegexError`, one whose value does not match its pattern fails with
/// `PlaceholderDoesNotMatchRegex`.
pub fn validate_values(manifest: &TemplateManifest, values: &PlaceholderValues) -> (r: Result<
    (),
    ExecError,
>)
    ensures
        match r {
            Ok(()) => spec_missing(manifest@.placeholders, values@).len() == 0 && spec_values_ok(
                values@,
            ),
            Err(e) => match e {
                ExecError::MissingPlaceholders(v) => v.deep_view() == spec_missing(
                    manifest@.placeholders,
                    values@,
                ) && v.deep_view().len() > 0,
                ExecError::PlaceholderDoesNotMatchRegex(val, pat, ph) => spec_missing(
                    manifest@.placeholders,
                    values@,
                ).len() == 0 && regex_ok(pat@) && !regex_matches(pat@, val@) && exists|j: int|
                    #[trigger] spec_first_bad_at(values@, j) && values@[j].0 == ph@ && values@[j].1
                        == val@ && values@[j].0.regex == Some(pat@),
                ExecError::RegexError(pat) => spec_missing(manifest@.placeholders, values@).len()
                    == 0 && !regex_ok(pat@) && exists|j: int|
                    #[trigger] spec_first_bad_at(values@, j) && values@[j].0.regex == Some(pat@),
                _ => false,
            },
        },
{
    let missing = find_missing_placeholders(manifest, values);
    if missing.len() > 0 {
        proof {
            assert(missing.deep_view().len() == missing@.len());
        }
        return Err(ExecError::MissingPlaceholders(missing));
    }
    proof {
        assert(missing.deep_view().len() == missing@.len());
    }
    let mut j: usize = 0;
    while j < values.entries.len()
        invariant
            j <= values.entries@.len(),
            values@.len() == values.entries@.len(),
            spec_missing(manifest@.placeholders, values@).len() == 0,
            forall|k: int| 0 <= k < j ==> !spec_entry_bad(#[trigger] values@[k]),
        decreases values.entries@.len() - j,
    {
        let e = &values.entries[j];
        proof {
            assert(values@[j as int] == (e@.0, e@.1)) by {
                assert(values@[j as int].0 == values.entries@[j as int].0@);
            }
        }
        match e.0.regex {
            Some(ref rx) => {
                if !regex_valid(rx.as_str()) {
                    proof {
                        assert(values@[j as int].0.regex == Some(rx@));
                        assert(spec_entry_bad(values@[j as int]));
                        assert(spec_first_bad_at(values@, j as int));
                    }
                    return Err(ExecError::RegexError(rx.clone()));
                }
                if !regex_match(rx.as_str(), e.1.as_str()) {
                    proof {
                        assert(values@[j as int].0.regex == Some(rx@));
                        assert(spec_entry_bad(values@[j as int]));
                        assert(spec_first_bad_at(values@, j as int));
                    }
                    return Err(
                        ExecError::PlaceholderDoesNotMatchRegex(
                            e.1.clone(),
                            rx.clone(),
                            clone_placeholder(&e.0),
                        ),
                    );
                }
                proof {
                    assert(values@[j as int].0.regex == Some(rx@));
                    assert(!spec_entry_bad(values@[j as int]));
                }
            },
            None => {
                proof {
                    assert(values@[j as int].0.regex is None);
                    assert(!spec_entry_bad(values@[j as int]));
                }
            },
        }
        j = j + 1;
    }
    Ok(())
}

/// What the cache manager must do for a template repository.
#[derive(Debug)]
pub enum CacheAction {
    /// The cache path does not exist yet: create it and clone the repository
    /// into it. A clone failure is fatal.
    CloneFresh,
    /// The cache path exists: refresh the working copy, best effort — an
    /// update failure is reported and never fatal.
    Update,
}

/// The cache manager's dispatch: a template whose cache path is absent is
/// cloned afresh; an existing one is only refreshed.
pub fn plan_cache_refresh(template_exists: bool) -> (r: CacheAction)
    ensures
        r is Update <==> template_exists,
        r is CloneFresh <==> !template_exists,
{
    if template_exists {
        CacheAction::Update
    } else {
        CacheAction::CloneFresh
    }
}

/// The presence checks that precede reading a manifest, in their fixed order:
/// a cache path that does not exist means the template was never cached; an
/// existing cache path without a manifest file at its root is not a template.
pub fn check_template_presence(template_exists: bool, manifest_file_exists: bool) -> (r: Result<
    (),
    ExecError,
>)
    ensures
        match r {
            Ok(()) => template_exists && manifest_file_exists,
            Err(e) => match e {
                ExecError::TemplateNotFound => !template_exists,
                ExecError::NoManifestFound => template_exists && !manifest_file_exists,
                _ => false,
            },
        },
{
    if !template_exists {
        return Err(ExecError::TemplateNotFound);
    }
    if !manifest_file_exists {
        return Err(ExecError::NoManifestFound);
    }
    Ok(())
}

} // verus!
