//! Frontmatter extraction: splits a descriptor document into a key-value
//! header and a body, and reads the typed skill properties out of the
//! decoded header.

use vstd::prelude::*;
use vstd::string::StringExecFns;
use crate::error::{SkillError, SkillErrorV};
use crate::models::{opt_view, pairs_view, SkillProperties, SkillPropertiesV};
use crate::text::{chars_vec, string_from_chars, trim_chars, trimmed};

verus! {

/// A value of a nested mapping in the header: a string's content, or the
/// diagnostic text of a value of any other kind.
#[derive(Debug)]
pub enum MetaValue {
    Str(String),
    Text(String),
}

/// Mathematical form of a `MetaValue`.
pub enum MetaValueV {
    Str(Seq<char>),
    Text(Seq<char>),
}

impl View for MetaValue {
    type V = MetaValueV;

    open spec fn view(&self) -> MetaValueV {
        match self {
            MetaValue::Str(s) => MetaValueV::Str(s@),
            MetaValue::Text(s) => MetaValueV::Text(s@),
        }
    }
}

/// A decoded header value: a string, a nested mapping (whose keys are kept
/// only when they are strings themselves), or a value of any other kind.
#[derive(Debug)]
pub enum FmValue {
    Str(String),
    Mapping(Vec<(Option<String>, MetaValue)>),
    Other,
}

/// Mathematical form of an `FmValue`.
pub enum FmValueV {
    Str(Seq<char>),
    Mapping(Seq<(Option<Seq<char>>, MetaValueV)>),
    Other,
}

/// The view of a nested mapping's entries.
pub open spec fn meta_entries_view(v: Seq<(Option<String>, MetaValue)>) -> Seq<
    (Option<Seq<char>>, MetaValueV),
> {
    v.map_values(
        |e: (Option<String>, MetaValue)|
            (
                match e.0 {
                    Some(s) => Some(s@),
                    None => None,
                },
                e.1@,
            ),
    )
}

impl View for FmValue {
    type V = FmValueV;

    open spec fn view(&self) -> FmValueV {
        match self {
            FmValue::Str(s) => FmValueV::Str(s@),
            FmValue::Mapping(m) => FmValueV::Mapping(meta_entries_view(m@)),
            FmValue::Other => FmValueV::Other,
        }
    }
}

/// The generic header mapping: the decoded key-value entries of a
/// document's header section, in the order the decoder hands them out.
#[derive(Debug)]
pub struct FrontmatterMap {
    pub entries: Vec<(String, FmValue)>,
}

/// The view of header entries.
pub open spec fn fm_entries_view(v: Seq<(String, FmValue)>) -> Seq<(Seq<char>, FmValueV)> {
    v.map_values(|e: (String, FmValue)| (e.0@, e.1@))
}

impl View for FrontmatterMap {
    type V = Seq<(Seq<char>, FmValueV)>;

    open spec fn view(&self) -> Seq<(Seq<char>, FmValueV)> {
        fm_entries_view(self.entries@)
    }
}

/// The value under a key: the first entry whose key matches.
pub open spec fn lookup(entries: Seq<(Seq<char>, FmValueV)>, key: Seq<char>) -> Option<FmValueV>
    decreases entries.len(),
{
    if entries.len() == 0 {
        None
    } else if entries[0].0 == key {
        Some(entries[0].1)
    } else {
        lookup(entries.drop_first(), key)
    }
}

impl FrontmatterMap {
    /// The value stored under `key`, if any.
    pub fn get(&self, key: &String) -> (r: Option<&FmValue>)
        ensures
            match r {
                Some(v) => lookup(self@, key@) == Some(v@),
                None => lookup(self@, key@) is None,
            },
    {
        let mut i: usize = 0;
        assert(self@.skip(0) =~= self@);
        while i < self.entries.len()
            invariant
                i <= self.entries.len(),
                self@.len() == self.entries@.len(),
                lookup(self@, key@) == lookup(self@.skip(i as int), key@),
            decreases self.entries.len() - i,
        {
            assert(self@.skip(i as int)[0] == self@[i as int]);
            assert(self@[i as int] == (self.entries@[i as int].0@, self.entries@[i as int].1@));
            if self.entries[i].0 == *key {
                return Some(&self.entries[i].1);
            }
            assert(self@.skip(i as int).drop_first() =~= self@.skip(i + 1));
            i = i + 1;
        }
        assert(self@.skip(i as int).len() == 0);
        None
    }

    /// Whether the mapping holds an entry under `key`.
    pub fn contains_key(&self, key: &String) -> (r: bool)
        ensures
            r == (lookup(self@, key@) is Some),
    {
        match self.get(key) {
            Some(_) => true,
            None => false,
        }
    }
}

/// What the YAML decoder makes of a header text: its key-value entries in
/// the order the decoder hands them out, or the diagnostic text of the
/// decode error.
pub uninterp spec fn yaml_header(s: Seq<char>) -> Result<Seq<(Seq<char>, FmValueV)>, Seq<char>>;

#[verifier::external_type_specification]
#[verifier::external_body]
pub struct ExYamlValue(serde_yaml::Value);

/// Relies on serde_yaml::from_str, deserializing the header into a map with
/// string keys, in key order: the outcome is a function of the text alone.
#[verifier::external_body]
fn decode_yaml(s: &str) -> (r: Result<FrontmatterMap, String>)
    ensures
        match r {
            Ok(m) => yaml_header(s@) == Ok::<Seq<(Seq<char>, FmValueV)>, Seq<char>>(m@),
            Err(e) => yaml_header(s@) == Err::<Seq<(Seq<char>, FmValueV)>, Seq<char>>(e@),
        },
{
    match serde_yaml::from_str::<std::collections::BTreeMap<String, serde_yaml::Value>>(s) {
        Ok(m) => Ok(FrontmatterMap {
            entries: m.into_iter().map(|(k, v)| (k, conv_value(v))).collect(),
        }),
        Err(e) => Err(e.to_string()),
    }
}

/// Relies on serde_yaml::Value: tells its variants apart, keeping a string's
/// content and a mapping's entries, and marking anything else.
#[verifier::external_body]
fn conv_value(v: serde_yaml::Value) -> FmValue {
    match v {
        serde_yaml::Value::String(s) => FmValue::Str(s),
        serde_yaml::Value::Mapping(m) => FmValue::Mapping(
            m.into_iter().map(|(k, val)| (conv_key(k), conv_meta(val))).collect(),
        ),
        _ => FmValue::Other,
    }
}

/// Relies on serde_yaml::Value: a nested key is kept only when it is a
/// string, as Value::as_str would hand it out.
#[verifier::external_body]
fn conv_key(k: serde_yaml::Value) -> Option<String> {
    match k {
        serde_yaml::Value::String(s) => Some(s),
        _ => None,
    }
}

/// Relies on serde_yaml::Value: a nested value is kept as its string
/// content, or as its diagnostic (Debug) text for any other kind.
#[verifier::external_body]
fn conv_meta(v: serde_yaml::Value) -> MetaValue {
    match v {
        serde_yaml::Value::String(s) => MetaValue::Str(s),
        other => MetaValue::Text(format!("{:?}", other)),
    }
}



/// Whether three delimiter dashes stand at position `i`.
pub open spec fn delim_at(s: Seq<char>, i: int) -> bool {
    0 <= i && i + 3 <= s.len() && s[i] == '-' && s[i + 1] == '-' && s[i + 2] == '-'
}

/// Whether the document opens with the delimiter.
pub open spec fn starts_with_delim(s: Seq<char>) -> bool {
    delim_at(s, 0)
}

/// The leftmost delimiter position at or after `i`, or -1 where none is.
pub open spec fn first_delim_from(s: Seq<char>, i: int) -> int
    recommends
        0 <= i,
    decreases s.len() - i,
{
    if i + 3 > s.len() {
        -1
    } else if delim_at(s, i) {
        i
    } else {
        first_delim_from(s, i + 1)
    }
}

/// Scanning over positions without a delimiter does not change the result.
proof fn lemma_first_delim_scan(s: Seq<char>, a: int, b: int)
    requires
        0 <= a <= b,
        forall|j: int| a <= j < b ==> !delim_at(s, j),
    ensures
        first_delim_from(s, a) == first_delim_from(s, b),
    decreases b - a,
{
    if a < b {
        if a + 3 > s.len() {
            assert(b + 3 > s.len());
        } else {
            lemma_first_delim_scan(s, a + 1, b);
        }
    }
}

/// What frontmatter extraction makes of a document text: the decoded
/// header entries and the trimmed body, or the parse error message.
pub open spec fn spec_parse_frontmatter(s: Seq<char>) -> Result<
    (Seq<(Seq<char>, FmValueV)>, Seq<char>),
    Seq<char>,
> {
    if !starts_with_delim(s) {
        Err("SKILL.md must start with YAML frontmatter (---)"@)
    } else {
        let c = first_delim_from(s, 3);
        if c < 0 {
            Err("SKILL.md frontmatter not properly closed with ---"@)
        } else {
            match yaml_header(s.subrange(3, c)) {
                Ok(entries) => Ok((entries, trimmed(s.skip(c + 3)))),
                Err(e) => Err("Invalid YAML in frontmatter: "@ + e),
            }
        }
    }
}

/// The characters of `v` between `a` and `b`.
fn sub_chars(v: &Vec<char>, a: usize, b: usize) -> (r: Vec<char>)
    requires
        a <= b <= v.len(),
    ensures
        r@ == v@.subrange(a as int, b as int),
{
    let mut r: Vec<char> = Vec::new();
    let mut k: usize = a;
    while k < b
        invariant
            a <= k <= b <= v.len(),
            r@ =~= v@.subrange(a as int, k as int),
        decreases b - k,
    {
        r.push(v[k]);
        k = k + 1;
        assert(r@ =~= v@.subrange(a as int, k as int));
    }
    r
}

/// Split a document into its decoded header mapping and its body.
///
/// The document must open with the three-dash delimiter and close the
/// header with a second one; the header text between them is decoded into
/// the generic mapping, and the body is everything after the second
/// delimiter, trimmed.
pub fn parse_frontmatter(content: &str) -> (r: Result<(FrontmatterMap, String), SkillError>)
    ensures
        match r {
            Ok(p) => spec_parse_frontmatter(content@) == Ok::<
                (Seq<(Seq<char>, FmValueV)>, Seq<char>),
                Seq<char>,
            >((p.0@, p.1@)),
            Err(e) => spec_parse_frontmatter(content@) matches Err(m) && e@ == SkillErrorV::Parse(
                m,
            ),
        },
{
    let v = chars_vec(content);
    if !(v.len() >= 3 && v[0] == '-' && v[1] == '-' && v[2] == '-') {
        return Err(SkillError::parse(String::from_str(
            "SKILL.md must start with YAML frontmatter (---)",
        )));
    }
    let mut i: usize = 3;
    let mut close: usize = 0;
    let mut found: bool = false;
    while !found && i <= v.len() - 3
        invariant
            v@ == content@,
            v.len() >= 3,
            3 <= i,
            !found ==> forall|j: int| 3 <= j < i ==> !delim_at(v@, j),
            found ==> 3 <= close && delim_at(v@, close as int) && (forall|j: int|
                3 <= j < close ==> !delim_at(v@, j)),
            found ==> close <= v.len() - 3,
        decreases v.len() - i,
    {
        if v[i] == '-' && v[i + 1] == '-' && v[i + 2] == '-' {
            found = true;
            close = i;
        }
        i = i + 1;
    }
    if !found {
        proof {
            assert(forall|j: int| 3 <= j < i ==> !delim_at(v@, j));
            assert(forall|j: int| i <= j ==> j + 3 > v@.len() ==> !delim_at(v@, j));
            lemma_first_delim_scan(v@, 3, i as int);
            assert(first_delim_from(v@, i as int) == -1);
        }
        return Err(SkillError::parse(String::from_str(
            "SKILL.md frontmatter not properly closed with ---",
        )));
    }
    proof {
        lemma_first_delim_scan(v@, 3, close as int);
        assert(first_delim_from(v@, 3) == close as int);
    }
    let header = sub_chars(&v, 3, close);
    let header_s = string_from_chars(&header);
    let tail = sub_chars(&v, close + 3, v.len());
    let body = trim_chars(&tail);
    let body_s = string_from_chars(&body);
    proof {
        assert(v@.subrange(close + 3, v@.len() as int) =~= v@.skip(close + 3));
    }
    match decode_yaml(header_s.as_str()) {
        Ok(m) => Ok((m, body_s)),
        Err(e) => {
            let mut msg = String::from_str("Invalid YAML in frontmatter: ");
            msg.append(e.as_str());
            Err(SkillError::parse(msg))
        },
    }
}



/// A validation error carrying one message.
pub open spec fn validation_v(m: Seq<char>) -> SkillErrorV {
    SkillErrorV::Validation { message: m, errors: seq![m] }
}

/// The string content of a header value, where it is a string.
pub open spec fn opt_str(v: Option<FmValueV>) -> Option<Seq<char>> {
    match v {
        Some(FmValueV::Str(s)) => Some(s),
        _ => None,
    }
}

/// The text a nested mapping value contributes: a string's content, or the
/// diagnostic text of any other value.
pub open spec fn meta_text(v: MetaValueV) -> Seq<char> {
    match v {
        MetaValueV::Str(s) => s,
        MetaValueV::Text(t) => t,
    }
}

/// The string pairs of a nested mapping: entries whose key is a string, in
/// order, each with the text its value contributes.
pub open spec fn meta_pairs(es: Seq<(Option<Seq<char>>, MetaValueV)>) -> Seq<
    (Seq<char>, Seq<char>),
>
    decreases es.len(),
{
    if es.len() == 0 {
        Seq::empty()
    } else {
        let rest = meta_pairs(es.drop_last());
        match es.last().0 {
            Some(k) => rest.push((k, meta_text(es.last().1))),
            None => rest,
        }
    }
}

/// The metadata field of a header: its string pairs where the `metadata`
/// key holds a mapping, collapsed to absent when empty.
pub open spec fn spec_metadata_field(entries: Seq<(Seq<char>, FmValueV)>) -> Option<
    Seq<(Seq<char>, Seq<char>)>,
> {
    match lookup(entries, "metadata"@) {
        Some(FmValueV::Mapping(es)) => if meta_pairs(es).len() == 0 {
            None
        } else {
            Some(meta_pairs(es))
        },
        _ => None,
    }
}

/// What the property reader makes of decoded header entries: the typed
/// record, or the first failure, checking presence of the required keys
/// first and their shape second.
pub open spec fn spec_read_entries(entries: Seq<(Seq<char>, FmValueV)>) -> Result<
    SkillPropertiesV,
    SkillErrorV,
> {
    if lookup(entries, "name"@) is None {
        Err(validation_v("Missing required field in frontmatter: name"@))
    } else if lookup(entries, "description"@) is None {
        Err(validation_v("Missing required field in frontmatter: description"@))
    } else {
        match opt_str(lookup(entries, "name"@)) {
            None => Err(validation_v("Field 'name' must be a non-empty string"@)),
            Some(name) => if trimmed(name).len() == 0 {
                Err(validation_v("Field 'name' must be a non-empty string"@))
            } else {
                match opt_str(lookup(entries, "description"@)) {
                    None => Err(validation_v("Field 'description' must be a non-empty string"@)),
                    Some(desc) => if trimmed(desc).len() == 0 {
                        Err(validation_v("Field 'description' must be a non-empty string"@))
                    } else {
                        Ok(
                            SkillPropertiesV {
                                name: trimmed(name),
                                description: trimmed(desc),
                                license: opt_str(lookup(entries, "license"@)),
                                compatibility: opt_str(lookup(entries, "compatibility"@)),
                                allowed_tools: opt_str(lookup(entries, "allowed-tools"@)),
                                metadata: spec_metadata_field(entries),
                            },
                        )
                    },
                }
            },
        }
    }
}

/// What the property reader makes of a whole document text.
pub open spec fn spec_read_content(s: Seq<char>) -> Result<SkillPropertiesV, SkillErrorV> {
    match spec_parse_frontmatter(s) {
        Err(m) => Err(SkillErrorV::Parse(m)),
        Ok(pr) => spec_read_entries(pr.0),
    }
}

/// The string stored under `key`, where the value is string-shaped.
fn extract_string(m: &FrontmatterMap, key: &String) -> (r: Option<String>)
    ensures
        opt_view(r) == opt_str(lookup(m@, key@)),
{
    match m.get(key) {
        Some(FmValue::Str(s)) => Some(s.clone()),
        _ => None,
    }
}

/// The metadata field as string pairs, absent when empty or not a mapping.
fn extract_metadata(m: &FrontmatterMap) -> (r: Option<Vec<(String, String)>>)
    ensures
        match r {
            Some(p) => spec_metadata_field(m@) == Some(pairs_view(p@)),
            None => spec_metadata_field(m@) is None,
        },
{
    let key = String::from_str("metadata");
    match m.get(&key) {
        Some(FmValue::Mapping(es)) => {
            let ghost esv = meta_entries_view(es@);
            let mut pairs: Vec<(String, String)> = Vec::new();
            let mut i: usize = 0;
            assert(esv.take(0) =~= Seq::empty());
            while i < es.len()
                invariant
                    i <= es.len(),
                    esv == meta_entries_view(es@),
                    esv.len() == es@.len(),
                    pairs_view(pairs@) =~= meta_pairs(esv.take(i as int)),
                decreases es.len() - i,
            {
                assert(esv[i as int] == (
                    match es@[i as int].0 {
                        Some(s) => Some(s@),
                        None => None,
                    },
                    es@[i as int].1@,
                ));
                assert(esv.take(i + 1).drop_last() =~= esv.take(i as int));
                assert(esv.take(i + 1).last() == esv[i as int]);
                match &es[i].0 {
                    Some(k) => {
                        let value = match &es[i].1 {
                            MetaValue::Str(s) => s.clone(),
                            MetaValue::Text(t) => t.clone(),
                        };
                        pairs.push((k.clone(), value));
                    },
                    None => {},
                }
                i = i + 1;
                assert(pairs_view(pairs@) =~= meta_pairs(esv.take(i as int)));
            }
            assert(esv.take(i as int) =~= esv);
            if pairs.len() == 0 {
                assert(pairs_view(pairs@) =~= Seq::empty());
                None
            } else {
                assert(pairs_view(pairs@).len() > 0);
                Some(pairs)
            }
        },
        _ => None,
    }
}

/// Read the typed skill properties out of a descriptor document's text.
///
/// Enforces presence and string shape of the required `name` and
/// `description` keys (which are stored trimmed), copies the optional
/// string fields through verbatim, and keeps non-empty string-keyed
/// metadata; it does not enforce the name grammar or the length limits.
pub fn read_properties(content: &str) -> (r: Result<SkillProperties, SkillError>)
    ensures
        match r {
            Ok(p) => spec_read_content(content@) == Ok::<SkillPropertiesV, SkillErrorV>(p@),
            Err(e) => spec_read_content(content@) == Err::<SkillPropertiesV, SkillErrorV>(e@),
        },
{
    let parsed = match parse_frontmatter(content) {
        Ok(p) => p,
        Err(e) => {
            return Err(e);
        },
    };
    let m = parsed.0;
    if !m.contains_key(&String::from_str("name")) {
        return Err(
            SkillError::validation(String::from_str("Missing required field in frontmatter: name")),
        );
    }
    if !m.contains_key(&String::from_str("description")) {
        return Err(
            SkillError::validation(
                String::from_str("Missing required field in frontmatter: description"),
            ),
        );
    }
    let name = match extract_string(&m, &String::from_str("name")) {
        Some(n) => n,
        None => {
            return Err(
                SkillError::validation(String::from_str("Field 'name' must be a non-empty string")),
            );
        },
    };
    let name_chars = chars_vec(name.as_str());
    let name_trimmed = trim_chars(&name_chars);
    if name_trimmed.len() == 0 {
        return Err(
            SkillError::validation(String::from_str("Field 'name' must be a non-empty string")),
        );
    }
    let desc = match extract_string(&m, &String::from_str("description")) {
        Some(d) => d,
        None => {
            return Err(
                SkillError::validation(
                    String::from_str("Field 'description' must be a non-empty string"),
                ),
            );
        },
    };
    let desc_chars = chars_vec(desc.as_str());
    let desc_trimmed = trim_chars(&desc_chars);
    if desc_trimmed.len() == 0 {
        return Err(
            SkillError::validation(
                String::from_str("Field 'description' must be a non-empty string"),
            ),
        );
    }
    let license = extract_string(&m, &String::from_str("license"));
    let compatibility = extract_string(&m, &String::from_str("compatibility"));
    let allowed_tools = extract_string(&m, &String::from_str("allowed-tools"));
    let metadata = extract_metadata(&m);
    Ok(
        SkillProperties {
            name: string_from_chars(&name_trimmed),
            description: string_from_chars(&desc_trimmed),
            license,
            compatibility,
            allowed_tools,
            metadata,
        },
    )
}

} // verus!
