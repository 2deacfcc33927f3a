//! Data model for skill descriptors.

use vstd::prelude::*;
use vstd::string::StringExecFns;

verus! {

/// Properties declared in a skill's descriptor frontmatter.
///
/// `name` and `description` are required; the remaining fields are optional
/// and, when absent, are omitted from every rendering of the record.
/// `metadata` is an association list of string keys and values, kept only
/// when non-empty.
#[derive(Debug, Clone)]
pub struct SkillProperties {
    pub name: String,
    pub description: String,
    pub license: Option<String>,
    pub compatibility: Option<String>,
    pub allowed_tools: Option<String>,
    pub metadata: Option<Vec<(String, String)>>,
}

/// Mathematical form of a `SkillProperties` record.
pub struct SkillPropertiesV {
    pub name: Seq<char>,
    pub description: Seq<char>,
    pub license: Option<Seq<char>>,
    pub compatibility: Option<Seq<char>>,
    pub allowed_tools: Option<Seq<char>>,
    pub metadata: Option<Seq<(Seq<char>, Seq<char>)>>,
}

/// The view of an optional string.
pub open spec fn opt_view(o: Option<String>) -> Option<Seq<char>> {
    match o {
        Some(s) => Some(s@),
        None => None,
    }
}

/// The view of a string association list.
pub open spec fn pairs_view(v: Seq<(String, String)>) -> Seq<(Seq<char>, Seq<char>)> {
    v.map_values(|p: (String, String)| (p.0@, p.1@))
}

impl View for SkillProperties {
    type V = SkillPropertiesV;

    open spec fn view(&self) -> SkillPropertiesV {
        SkillPropertiesV {
            name: self.name@,
            description: self.description@,
            license: opt_view(self.license),
            compatibility: opt_view(self.compatibility),
            allowed_tools: opt_view(self.allowed_tools),
            metadata: match self.metadata {
                Some(m) => Some(pairs_view(m@)),
                None => None,
            },
        }
    }
}

impl SkillProperties {
    /// Create a new record holding the required fields only.
    pub fn new(name: &str, description: &str) -> (r: Self)
        ensures
            r@ == (SkillPropertiesV {
                name: name@,
                description: description@,
                license: None,
                compatibility: None,
                allowed_tools: None,
                metadata: None,
            }),
    {
        SkillProperties {
            name: String::from_str(name),
            description: String::from_str(description),
            license: None,
            compatibility: None,
            allowed_tools: None,
            metadata: None,
        }
    }
}

/// A value of the record's external key-value form: a string, or a nested
/// string-to-string mapping.
#[derive(Debug, Clone)]
pub enum DictValue {
    Str(String),
    Mapping(Vec<(String, String)>),
}

/// Mathematical form of a `DictValue`.
pub enum DictValueV {
    Str(Seq<char>),
    Mapping(Seq<(Seq<char>, Seq<char>)>),
}

impl View for DictValue {
    type V = DictValueV;

    open spec fn view(&self) -> DictValueV {
        match self {
            DictValue::Str(s) => DictValueV::Str(s@),
            DictValue::Mapping(m) => DictValueV::Mapping(pairs_view(m@)),
        }
    }
}

/// The view of a key-value rendering.
pub open spec fn dict_view(v: Seq<(String, DictValue)>) -> Seq<(Seq<char>, DictValueV)> {
    v.map_values(|p: (String, DictValue)| (p.0@, p.1@))
}

/// The external key-value form of a record: the two required fields, then
/// each optional field that is present, and nothing else.
pub open spec fn spec_to_dict(p: SkillPropertiesV) -> Seq<(Seq<char>, DictValueV)> {
    seq![("name"@, DictValueV::Str(p.name)), ("description"@, DictValueV::Str(p.description))]
        + (match p.license {
        Some(l) => seq![("license"@, DictValueV::Str(l))],
        None => Seq::empty(),
    }) + (match p.compatibility {
        Some(c) => seq![("compatibility"@, DictValueV::Str(c))],
        None => Seq::empty(),
    }) + (match p.allowed_tools {
        Some(t) => seq![("allowed-tools"@, DictValueV::Str(t))],
        None => Seq::empty(),
    }) + (match p.metadata {
        Some(m) => seq![("metadata"@, DictValueV::Mapping(m))],
        None => Seq::empty(),
    })
}

/// A copy of a string association list, pair by pair.
pub(crate) fn clone_pairs(v: &Vec<(String, String)>) -> (r: Vec<(String, String)>)
    ensures
        r@ == v@,
{
    let mut r: Vec<(String, String)> = Vec::new();
    let mut i: usize = 0;
    while i < v.len()
        invariant
            i <= v.len(),
            r@ =~= v@.subrange(0, i as int),
        decreases v.len() - i,
    {
        r.push((v[i].0.clone(), v[i].1.clone()));
        i = i + 1;
        assert(r@ =~= v@.subrange(0, i as int));
    }
    assert(r@ =~= v@);
    r
}

impl SkillProperties {
    /// Convert to the external key-value form, excluding absent fields.
    pub fn to_dict(&self) -> (r: Vec<(String, DictValue)>)
        ensures
            dict_view(r@) == spec_to_dict(self@),
    {
        let mut r: Vec<(String, DictValue)> = Vec::new();
        r.push((String::from_str("name"), DictValue::Str(self.name.clone())));
        r.push((String::from_str("description"), DictValue::Str(self.description.clone())));
        if let Some(license) = &self.license {
            r.push((String::from_str("license"), DictValue::Str(license.clone())));
        }
        if let Some(compatibility) = &self.compatibility {
            r.push((String::from_str("compatibility"), DictValue::Str(compatibility.clone())));
        }
        if let Some(allowed_tools) = &self.allowed_tools {
            r.push((String::from_str("allowed-tools"), DictValue::Str(allowed_tools.clone())));
        }
        if let Some(metadata) = &self.metadata {
            r.push((String::from_str("metadata"), DictValue::Mapping(clone_pairs(metadata))));
        }
        assert(dict_view(r@) =~= spec_to_dict(self@));
        r
    }
}

/// The keys of a key-value rendering.
pub open spec fn dict_keys(d: Seq<(Seq<char>, DictValueV)>) -> Seq<Seq<char>> {
    d.map_values(|p: (Seq<char>, DictValueV)| p.0)
}

/// The external key-value form of a record contains the two required keys,
/// contains each optional key exactly when the field is present, and
/// contains no other key.
pub proof fn lemma_to_dict_round_trip(p: SkillPropertiesV)
    ensures
        dict_keys(spec_to_dict(p)).contains("name"@),
        dict_keys(spec_to_dict(p)).contains("description"@),
        dict_keys(spec_to_dict(p)).contains("license"@) <==> p.license is Some,
        dict_keys(spec_to_dict(p)).contains("compatibility"@) <==> p.compatibility is Some,
        dict_keys(spec_to_dict(p)).contains("allowed-tools"@) <==> p.allowed_tools is Some,
        dict_keys(spec_to_dict(p)).contains("metadata"@) <==> p.metadata is Some,
        forall|k: Seq<char>|
            dict_keys(spec_to_dict(p)).contains(k) ==> k == "name"@ || k == "description"@ || k
                == "license"@ || k == "compatibility"@ || k == "allowed-tools"@ || k
                == "metadata"@,
{
    reveal_strlit("name");
    reveal_strlit("description");
    reveal_strlit("license");
    reveal_strlit("compatibility");
    reveal_strlit("allowed-tools");
    reveal_strlit("metadata");
    let d = spec_to_dict(p);
    let ks = dict_keys(d);
    let lic: int = if p.license is Some {
        1
    } else {
        0
    };
    let com: int = if p.compatibility is Some {
        1
    } else {
        0
    };
    let too: int = if p.allowed_tools is Some {
        1
    } else {
        0
    };
    let met: int = if p.metadata is Some {
        1
    } else {
        0
    };
    assert(d.len() == 2 + lic + com + too + met);
    assert forall|i: int| 0 <= i < d.len() implies (d[i].0 == "name"@ || d[i].0 == "description"@
        || (p.license is Some && d[i].0 == "license"@) || (p.compatibility is Some && d[i].0
        == "compatibility"@) || (p.allowed_tools is Some && d[i].0 == "allowed-tools"@) || (
    p.metadata is Some && d[i].0 == "metadata"@)) by {
        assert(i < 2 || i < 2 + lic || i < 2 + lic + com || i < 2 + lic + com + too || i < 2 + lic
            + com + too + met);
    }
    assert forall|k: Seq<char>| ks.contains(k) implies k == "name"@ || k == "description"@ || k
        == "license"@ || k == "compatibility"@ || k == "allowed-tools"@ || k == "metadata"@ by {
        let i = choose|i: int| 0 <= i < ks.len() && ks[i] == k;
        assert(d[i].0 == k);
    }
    assert("name"@.len() == 4 && "description"@.len() == 11 && "license"@.len() == 7
        && "compatibility"@.len() == 13 && "allowed-tools"@.len() == 13 && "metadata"@.len()
        == 8);
    assert("compatibility"@[0] == 'c' && "allowed-tools"@[0] == 'a');
    assert("license"@ != "name"@ && "license"@ != "description"@ && "license"@
        != "compatibility"@ && "license"@ != "allowed-tools"@ && "license"@ != "metadata"@);
    assert("compatibility"@ != "name"@ && "compatibility"@ != "description"@ && "compatibility"@
        != "allowed-tools"@ && "compatibility"@ != "metadata"@);
    assert("allowed-tools"@ != "name"@ && "allowed-tools"@ != "description"@ && "allowed-tools"@
        != "metadata"@);
    assert("metadata"@ != "name"@ && "metadata"@ != "description"@);
    let s01 = seq![
        ("name"@, DictValueV::Str(p.name)),
        ("description"@, DictValueV::Str(p.description)),
    ];
    assert(d[0] == s01[0] && d[1] == s01[1]);
    assert(ks.len() == d.len());
    assert(ks[0] == d[0].0);
    assert(ks[0] == "name"@ && ks.contains("name"@));
    assert(ks[1] == d[1].0);
    assert(ks[1] == "description"@ && ks.contains("description"@));
    if p.license is Some {
        assert(d[2].0 == "license"@);
        assert(ks[2] == d[2].0);
        assert(ks[2] == "license"@ && ks.contains("license"@));
    } else {
        assert forall|i: int| 0 <= i < ks.len() implies ks[i] != "license"@ by {
            assert(d[i].0 == ks[i]);
        }
        assert(!ks.contains("license"@));
    }
    if p.compatibility is Some {
        assert(d[2 + lic].0 == "compatibility"@);
        assert(ks[2 + lic] == d[2 + lic].0);
        assert(ks[2 + lic] == "compatibility"@ && ks.contains("compatibility"@));
    } else {
        assert forall|i: int| 0 <= i < ks.len() implies ks[i] != "compatibility"@ by {
            assert(d[i].0 == ks[i]);
        }
        assert(!ks.contains("compatibility"@));
    }
    if p.allowed_tools is Some {
        assert(d[2 + lic + com].0 == "allowed-tools"@);
        assert(ks[2 + lic + com] == d[2 + lic + com].0);
        assert(ks[2 + lic + com] == "allowed-tools"@ && ks.contains("allowed-tools"@));
    } else {
        assert forall|i: int| 0 <= i < ks.len() implies ks[i] != "allowed-tools"@ by {
            assert(d[i].0 == ks[i]);
        }
        assert(!ks.contains("allowed-tools"@));
    }
    if p.metadata is Some {
        assert(d[2 + lic + com + too].0 == "metadata"@);
        assert(ks[2 + lic + com + too] == d[2 + lic + com + too].0);
        assert(ks[2 + lic + com + too] == "metadata"@ && ks.contains("metadata"@));
    } else {
        assert forall|i: int| 0 <= i < ks.len() implies ks[i] != "metadata"@ by {
            assert(d[i].0 == ks[i]);
        }
        assert(!ks.contains("metadata"@));
    }
}

} // verus!
