//! Skill validation: the fixed rule set over a decoded header mapping, and
//! the short-circuiting directory-based entry point over an observed
//! directory state.

use vstd::prelude::*;
use vstd::string::StringExecFns;
use vstd::relations::{sorted_by, total_ordering};
use vstd::multiset::Multiset;
use vstd::seq_lib::lemma_sorted_unique;
use vstd::seq_lib::lemma_multiset_commutative;
use crate::text::{
    chars_eq, chars_le, chars_vec, lemma_deep_is_strs, lemma_strs_view_concat,
    lemma_strs_view_insert, lemma_strs_view_push, lex_le, lemma_lex_le_antisym,
    lemma_lex_le_connected, lemma_lex_le_refl, lemma_lex_le_trans, string_from_chars, strs_view,
    trim_chars, usize_to_string,
};
use crate::parser::{lookup, spec_parse_frontmatter, spec_read_entries, FmValue, FmValueV, FrontmatterMap};
use crate::models::opt_view;
use crate::text::{
    char_is_alnum, dec_str, is_alnum_char, lower_of, nfkc_chars, nfkc_of, to_lowercase_str,
    trimmed,
};
use vstd::utf8::encode_utf8;

verus! {

/// Maximum length for skill names, in Unicode scalar values.
pub const MAX_SKILL_NAME_LENGTH: usize = 64;

/// Maximum length for skill descriptions, in bytes.
pub const MAX_DESCRIPTION_LENGTH: usize = 1024;

/// Maximum length for the compatibility field, in bytes.
pub const MAX_COMPATIBILITY_LENGTH: usize = 500;

/// The fixed set of keys a header may declare.
pub open spec fn spec_allowed_key(k: Seq<char>) -> bool {
    ||| k == "name"@
    ||| k == "description"@
    ||| k == "license"@
    ||| k == "allowed-tools"@
    ||| k == "metadata"@
    ||| k == "compatibility"@
}

/// Check if a header key is allowed.
pub fn is_allowed_field(field: &str) -> (r: bool)
    ensures
        r == spec_allowed_key(field@),
{
    let f = String::from_str(field);
    f == String::from_str("name") || f == String::from_str("description") || f == String::from_str(
        "license",
    ) || f == String::from_str("allowed-tools") || f == String::from_str("metadata") || f
        == String::from_str("compatibility")
}

/// The order the offending keys are listed in.
pub open spec fn key_le() -> spec_fn(Seq<char>, Seq<char>) -> bool {
    |a: Seq<char>, b: Seq<char>| lex_le(a, b)
}

/// `lex_le` is a total order on character sequences.
pub proof fn lemma_lex_le_total_ordering()
    ensures
        total_ordering(key_le()),
{
    let leq = key_le();
    assert forall|a: Seq<char>| #[trigger] leq(a, a) by {
        lemma_lex_le_refl(a);
    }
    assert forall|a: Seq<char>, b: Seq<char>| #[trigger] leq(a, b) && #[trigger] leq(b, a)
        implies a == b by {
        lemma_lex_le_antisym(a, b);
    }
    assert forall|a: Seq<char>, b: Seq<char>, c: Seq<char>|
        #[trigger] leq(a, b) && #[trigger] leq(b, c) implies leq(a, c) by {
        lemma_lex_le_trans(a, b, c);
    }
    assert forall|a: Seq<char>, b: Seq<char>| #[trigger] leq(a, b) || #[trigger] leq(b, a) by {
        lemma_lex_le_connected(a, b);
    }
}

/// Inserting an element inserts it into the sequence's multiset.
proof fn lemma_multiset_of_insert(s: Seq<Seq<char>>, p: int, x: Seq<char>)
    requires
        0 <= p <= s.len(),
    ensures
        s.insert(p, x).to_multiset() =~= s.to_multiset().insert(x),
{
    broadcast use vstd::seq_lib::group_to_multiset_ensures;

    assert(s.insert(p, x) =~= s.take(p) + (seq![x] + s.skip(p)));
    lemma_multiset_commutative(s.take(p), seq![x] + s.skip(p));
    lemma_multiset_commutative(seq![x], s.skip(p));
    assert(s =~= s.take(p) + s.skip(p));
    lemma_multiset_commutative(s.take(p), s.skip(p));
    assert(seq![x].to_multiset() =~= Multiset::empty().insert(x)) by {
        assert(seq![x] =~= Seq::empty().push(x));
    }
}

/// Decides `lex_le` on strings.
fn string_le(a: &String, b: &String) -> (r: bool)
    ensures
        r == lex_le(a@, b@),
{
    let av = chars_vec(a.as_str());
    let bv = chars_vec(b.as_str());
    chars_le(&av, &bv)
}

/// Sort strings into the lexicographic order of their characters.
fn sort_strings(v: &Vec<String>) -> (r: Vec<String>)
    ensures
        r.deep_view() == v.deep_view().sort_by(key_le()),
{
    broadcast use vstd::seq_lib::group_to_multiset_ensures;

    let ghost leq = key_le();
    proof {
        lemma_lex_le_total_ordering();
    }
    let mut r: Vec<String> = Vec::new();
    let mut i: usize = 0;
    proof {
        lemma_deep_is_strs(r);
        assert(strs_view(v@).take(0) =~= Seq::empty());
        assert(r.deep_view() =~= Seq::<Seq<char>>::empty());
        assert(Seq::<Seq<char>>::empty().to_multiset() =~= Multiset::empty());
    }
    while i < v.len()
        invariant
            i <= v.len(),
            leq == key_le(),
            total_ordering(leq),
            sorted_by(r.deep_view(), leq),
            r.deep_view().to_multiset() == strs_view(v@).take(i as int).to_multiset(),
        decreases v.len() - i,
    {
        broadcast use vstd::seq_lib::group_to_multiset_ensures;

        let x = v[i].clone();
        assert(x@ == v@[i as int]@);
        let ghost r_snap = r@;
        let ghost rv0 = r.deep_view();
        let mut p: usize = 0;
        while p < r.len() && string_le(&r[p], &x)
            invariant
                p <= r.len(),
                r@ == r_snap,
                rv0 == r.deep_view(),
                rv0.len() == r@.len(),
                forall|k: int| 0 <= k < p ==> lex_le(#[trigger] rv0[k], x@),
            decreases r.len() - p,
        {
            assert(rv0[p as int] == r@[p as int]@);
            p = p + 1;
        }
        proof {
            if (p as int) < r_snap.len() {
                assert(rv0[p as int] == r_snap[p as int]@);
                assert(!lex_le(rv0[p as int], x@));
                assert(!leq(rv0[p as int], x@));
                assert(leq(x@, rv0[p as int]) || leq(rv0[p as int], x@));
                assert(leq(x@, rv0[p as int]));
            }
            assert forall|t: int| 0 <= t < p implies leq(#[trigger] rv0[t], x@) by {
                assert(lex_le(rv0[t], x@));
            }
            assert forall|t: int| p <= t < rv0.len() implies leq(x@, #[trigger] rv0[t]) by {
                if t > p {
                    assert(leq(rv0[p as int], rv0[t]));
                    assert(leq(x@, rv0[p as int]) && leq(rv0[p as int], rv0[t]) ==> leq(
                        x@,
                        rv0[t],
                    ));
                }
            }
        }
        r.insert(p, x);
        proof {
            assert(r@ == r_snap.insert(p as int, x));
            lemma_deep_is_strs(r);
            lemma_strs_view_insert(r_snap, p as int, x);
            assert(strs_view(r_snap) =~= rv0);
            let rv1 = r.deep_view();
            assert(rv1 =~= rv0.insert(p as int, x@));
            assert forall|a: int, b: int| 0 <= a < b < rv1.len() implies #[trigger] leq(
                rv1[a],
                rv1[b],
            ) by {
                assert(rv1[a] == rv0.insert(p as int, x@)[a]);
                assert(rv1[b] == rv0.insert(p as int, x@)[b]);
                if a < p && b < p {
                    assert(leq(rv0[a], rv0[b]));
                } else if a < p && b == p {
                    assert(leq(rv0[a], x@));
                } else if a < p {
                    assert(leq(rv0[a], rv0[b - 1]));
                } else if a == p {
                    assert(leq(x@, rv0[b - 1]));
                } else {
                    assert(leq(rv0[a - 1], rv0[b - 1]));
                }
            }
            lemma_multiset_of_insert(rv0, p as int, x@);
            assert(strs_view(v@).take(i + 1) =~= strs_view(v@).take(i as int).push(
                strs_view(v@)[i as int],
            ));
            assert(strs_view(v@)[i as int] == v@[i as int]@);
            assert(strs_view(v@).take(i + 1).to_multiset() =~= strs_view(v@).take(
                i as int,
            ).to_multiset().insert(x@));
        }
        i = i + 1;
    }
    proof {
        assert(strs_view(v@).take(i as int) =~= strs_view(v@));
        lemma_deep_is_strs(*v);
        assert(v.deep_view() =~= strs_view(v@));
        v.deep_view().lemma_sort_by_ensures(leq);
        lemma_sorted_unique(r.deep_view(), v.deep_view().sort_by(leq), leq);
    }
    r
}



/// The listed keys, joined with a comma and a space.
pub open spec fn join_comma(parts: Seq<Seq<char>>) -> Seq<char>
    decreases parts.len(),
{
    if parts.len() == 0 {
        Seq::empty()
    } else if parts.len() == 1 {
        parts[0]
    } else {
        join_comma(parts.drop_last()) + ", "@ + parts.last()
    }
}

/// Join strings with a comma and a space.
fn join_comma_exec(parts: &Vec<String>) -> (r: String)
    ensures
        r@ == join_comma(parts.deep_view()),
{
    let ghost dv = parts.deep_view();
    proof {
        lemma_deep_is_strs(*parts);
        assert(dv.take(0) =~= Seq::empty());
    }
    let mut s = String::new();
    let mut i: usize = 0;
    while i < parts.len()
        invariant
            i <= parts.len(),
            dv == parts.deep_view(),
            dv.len() == parts@.len(),
            s@ == join_comma(dv.take(i as int)),
        decreases parts.len() - i,
    {
        assert(dv[i as int] == parts@[i as int]@);
        assert(dv.take(i + 1).drop_last() =~= dv.take(i as int));
        assert(dv.take(i + 1).last() == dv[i as int]);
        if i > 0 {
            s.append(", ");
        }
        s.append(parts[i].as_str());
        i = i + 1;
        if i == 1 {
            assert(dv.take(1).len() == 1);
            assert(s@ =~= join_comma(dv.take(1)));
        } else {
            assert(s@ =~= join_comma(dv.take(i as int)));
        }
    }
    proof {
        assert(dv.take(i as int) =~= dv);
    }
    s
}

/// The keys of header entries, in order.
pub open spec fn fm_keys(entries: Seq<(Seq<char>, FmValueV)>) -> Seq<Seq<char>> {
    entries.map_values(|e: (Seq<char>, FmValueV)| e.0)
}

/// The violation text naming the unexpected keys (sorted) and the allowed
/// set.
pub open spec fn msg_unexpected(ks: Seq<Seq<char>>) -> Seq<char> {
    "Unexpected fields in frontmatter: "@ + join_comma(ks)
        + ". Only [\"allowed-tools\", \"compatibility\", \"description\", \"license\", \"metadata\", \"name\"] are allowed."@
}

/// The allowed-keys rule: one violation listing the offending keys in
/// sorted order, where any key outside the allowed set occurs.
pub open spec fn spec_unexpected(entries: Seq<(Seq<char>, FmValueV)>) -> Seq<Seq<char>> {
    let extras = fm_keys(entries).filter(|k: Seq<char>| !spec_allowed_key(k));
    if extras.len() == 0 {
        Seq::empty()
    } else {
        seq![msg_unexpected(extras.sort_by(key_le()))]
    }
}

/// Validate that only allowed keys are present.
fn validate_metadata_fields(m: &FrontmatterMap) -> (r: Vec<String>)
    ensures
        r.deep_view() == spec_unexpected(m@),
{
    let ghost keys = fm_keys(m@);
    let ghost pred = |k: Seq<char>| !spec_allowed_key(k);
    let mut extras: Vec<String> = Vec::new();
    let mut i: usize = 0;
    proof {
        reveal(Seq::filter);
        lemma_deep_is_strs(extras);
        assert(keys.take(0) =~= Seq::empty());
        assert(extras.deep_view() =~= keys.take(0).filter(pred));
    }
    while i < m.entries.len()
        invariant
            i <= m.entries.len(),
            keys == fm_keys(m@),
            pred == (|k: Seq<char>| !spec_allowed_key(k)),
            m@.len() == m.entries@.len(),
            keys.len() == m@.len(),
            extras.deep_view() == keys.take(i as int).filter(pred),
        decreases m.entries.len() - i,
    {
        assert(m@[i as int] == (m.entries@[i as int].0@, m.entries@[i as int].1@));
        assert(keys[i as int] == m@[i as int].0);
        assert(keys.take(i + 1).drop_last() =~= keys.take(i as int));
        assert(keys.take(i + 1).last() == keys[i as int]);
        let ghost e0 = extras@;
        proof {
            lemma_deep_is_strs(extras);
            assert(strs_view(e0) =~= keys.take(i as int).filter(pred));
            assert(pred(keys[i as int]) == !spec_allowed_key(keys[i as int]));
        }
        if !is_allowed_field(m.entries[i].0.as_str()) {
            extras.push(m.entries[i].0.clone());
            proof {
                assert(extras@ == e0.push(extras@.last()));
                lemma_strs_view_push(e0, extras@.last());
                lemma_deep_is_strs(extras);
            }
        }
        i = i + 1;
        proof {
            reveal(Seq::filter);
        }
        assert(extras.deep_view() =~= keys.take(i as int).filter(pred));
    }
    proof {
        assert(keys.take(i as int) =~= keys);
    }
    if extras.len() == 0 {
        let r: Vec<String> = Vec::new();
        proof {
            lemma_deep_is_strs(r);
            assert(extras.deep_view().len() == 0);
            assert(r.deep_view() =~= spec_unexpected(m@));
        }
        return r;
    }
    let sorted = sort_strings(&extras);
    let mut msg = String::from_str("Unexpected fields in frontmatter: ");
    let joined = join_comma_exec(&sorted);
    msg.append(joined.as_str());
    msg.append(
        ". Only [\"allowed-tools\", \"compatibility\", \"description\", \"license\", \"metadata\", \"name\"] are allowed.",
    );
    proof {
        lemma_lex_le_total_ordering();
        assert(msg@ =~= msg_unexpected(extras.deep_view().sort_by(key_le())));
    }
    let mut r: Vec<String> = Vec::new();
    r.push(msg);
    proof {
        lemma_deep_is_strs(r);
        assert(r.deep_view() =~= seq![msg_unexpected(extras.deep_view().sort_by(key_le()))]);
    }
    r
}

/// The byte length of a text, in its UTF-8 encoding.
pub open spec fn byte_len(s: Seq<char>) -> usize {
    encode_utf8(s).len() as usize
}

/// The violation text for a missing required key.
pub open spec fn msg_missing(field: Seq<char>) -> Seq<char> {
    "Missing required field in frontmatter: "@ + field
}

/// The violation text for a required field that is not a non-empty string.
pub open spec fn msg_nonempty(field: Seq<char>) -> Seq<char> {
    "Field '"@ + field + "' must be a non-empty string"@
}

/// Whether two hyphens stand next to each other.
pub open spec fn has_double_hyphen(s: Seq<char>) -> bool {
    exists|i: int| 0 <= i && i + 1 < s.len() && #[trigger] s[i] == '-' && s[i + 1] == '-'
}

/// Whether every character is alphanumeric or a hyphen.
pub open spec fn all_name_chars(s: Seq<char>) -> bool {
    forall|i: int| 0 <= i < s.len() ==> char_is_alnum(#[trigger] s[i]) || s[i] == '-'
}

/// The checks on an already-normalized name, each contributing its
/// violation in order: length, lowercase, hyphen placement, character
/// class, and agreement with the directory name.
pub open spec fn spec_name_checks(n: Seq<char>, dir: Option<Seq<char>>) -> Seq<Seq<char>> {
    (if n.len() > 64 {
        seq![
            "Skill name '"@ + n + "' exceeds 64 character limit ("@ + dec_str(n.len() as int)
                + " chars)"@,
        ]
    } else {
        Seq::empty()
    }) + (if n != lower_of(n) {
        seq!["Skill name '"@ + n + "' must be lowercase"@]
    } else {
        Seq::empty()
    }) + (if n.len() > 0 && (n[0] == '-' || n.last() == '-') {
        seq!["Skill name cannot start or end with a hyphen"@]
    } else {
        Seq::empty()
    }) + (if has_double_hyphen(n) {
        seq!["Skill name cannot contain consecutive hyphens"@]
    } else {
        Seq::empty()
    }) + (if !all_name_chars(n) {
        seq![
            "Skill name '"@ + n
                + "' contains invalid characters. Only letters, digits, and hyphens are allowed."@,
        ]
    } else {
        Seq::empty()
    }) + (match dir {
        Some(d) => if nfkc_of(d) != n {
            seq!["Directory name '"@ + d + "' must match skill name '"@ + n + "'"@]
        } else {
            Seq::empty()
        },
        None => Seq::empty(),
    })
}

/// The name rule: a non-empty name is trimmed and NFKC-normalized, then
/// held to the grammar; an empty one yields the single shape violation.
pub open spec fn spec_validate_name(name: Seq<char>, dir: Option<Seq<char>>) -> Seq<Seq<char>> {
    if name.len() == 0 || trimmed(name).len() == 0 {
        seq![msg_nonempty("name"@)]
    } else {
        spec_name_checks(nfkc_of(trimmed(name)), dir)
    }
}

/// Whether two hyphens stand next to each other.
fn has_double_hyphen_exec(v: &Vec<char>) -> (r: bool)
    ensures
        r == has_double_hyphen(v@),
{
    if v.len() < 2 {
        return false;
    }
    let mut i: usize = 0;
    while i < v.len() - 1
        invariant
            v.len() >= 2,
            i <= v.len() - 1,
            forall|j: int| 0 <= j < i ==> !(#[trigger] v@[j] == '-' && v@[j + 1] == '-'),
        decreases v.len() - i,
    {
        if v[i] == '-' && v[i + 1] == '-' {
            return true;
        }
        i = i + 1;
    }
    false
}

/// Whether every character is alphanumeric or a hyphen.
fn all_name_chars_exec(v: &Vec<char>) -> (r: bool)
    ensures
        r == all_name_chars(v@),
{
    let mut i: usize = 0;
    while i < v.len()
        invariant
            i <= v.len(),
            forall|j: int| 0 <= j < i ==> char_is_alnum(#[trigger] v@[j]) || v@[j] == '-',
        decreases v.len() - i,
    {
        if !(is_alnum_char(v[i]) || v[i] == '-') {
            return false;
        }
        i = i + 1;
    }
    true
}

/// Validate a skill name against the grammar, and against the directory
/// name where one is supplied.
#[verifier::rlimit(50)]
pub fn validate_name(name: &str, dir_name: &Option<String>) -> (r: Vec<String>)
    ensures
        r.deep_view() == spec_validate_name(name@, opt_view(*dir_name)),
{
    let mut errors: Vec<String> = Vec::new();
    proof {
        lemma_deep_is_strs(errors);
    }
    let raw = chars_vec(name);
    let t = trim_chars(&raw);
    if raw.len() == 0 || t.len() == 0 {
        let ghost e0 = errors@;
        errors.push(String::from_str("Field 'name' must be a non-empty string"));
        proof {
            lemma_strs_view_push(e0, errors@.last());
            lemma_deep_is_strs(errors);
            assert(errors.deep_view() =~= seq![msg_nonempty("name"@)]) by {
                reveal_strlit("Field 'name' must be a non-empty string");
                reveal_strlit("Field '");
                reveal_strlit("name");
                reveal_strlit("' must be a non-empty string");
                assert(errors.deep_view()[0] =~= msg_nonempty("name"@));
            }
        }
        return errors;
    }
    let n = nfkc_chars(&t);
    let n_str = string_from_chars(&n);
    let ghost nv = n@;
    if n.len() > MAX_SKILL_NAME_LENGTH {
        let mut msg = String::from_str("Skill name '");
        msg.append(n_str.as_str());
        msg.append("' exceeds 64 character limit (");
        let cnt = usize_to_string(n.len());
        msg.append(cnt.as_str());
        msg.append(" chars)");
        let ghost e0 = errors@;
        errors.push(msg);
        proof {
            lemma_strs_view_push(e0, errors@.last());
            lemma_deep_is_strs(errors);
        }
    }
    let ghost s1 = (
    if nv.len() > 64 {
        seq![
            "Skill name '"@ + nv + "' exceeds 64 character limit ("@ + dec_str(nv.len() as int)
                + " chars)"@,
        ]
    } else {
        Seq::<Seq<char>>::empty()
    });
    assert(errors.deep_view() =~= s1);
    let lower = to_lowercase_str(n_str.as_str());
    if !(n_str == lower) {
        let mut msg = String::from_str("Skill name '");
        msg.append(n_str.as_str());
        msg.append("' must be lowercase");
        let ghost e0 = errors@;
        errors.push(msg);
        proof {
            lemma_strs_view_push(e0, errors@.last());
            lemma_deep_is_strs(errors);
        }
    }
    let ghost s2 = s1 + (
    if nv != lower_of(nv) {
        seq!["Skill name '"@ + nv + "' must be lowercase"@]
    } else {
        Seq::<Seq<char>>::empty()
    });
    assert(errors.deep_view() =~= s2);
    if n.len() > 0 && (n[0] == '-' || n[n.len() - 1] == '-') {
        let ghost e0 = errors@;
        errors.push(String::from_str("Skill name cannot start or end with a hyphen"));
        proof {
            lemma_strs_view_push(e0, errors@.last());
            lemma_deep_is_strs(errors);
        }
    }
    let ghost s3 = s2 + (
    if nv.len() > 0 && (nv[0] == '-' || nv.last() == '-') {
        seq!["Skill name cannot start or end with a hyphen"@]
    } else {
        Seq::<Seq<char>>::empty()
    });
    assert(errors.deep_view() =~= s3);
    if has_double_hyphen_exec(&n) {
        let ghost e0 = errors@;
        errors.push(String::from_str("Skill name cannot contain consecutive hyphens"));
        proof {
            lemma_strs_view_push(e0, errors@.last());
            lemma_deep_is_strs(errors);
        }
    }
    let ghost s4 = s3 + (
    if has_double_hyphen(nv) {
        seq!["Skill name cannot contain consecutive hyphens"@]
    } else {
        Seq::<Seq<char>>::empty()
    });
    assert(errors.deep_view() =~= s4);
    if !all_name_chars_exec(&n) {
        let mut msg = String::from_str("Skill name '");
        msg.append(n_str.as_str());
        msg.append("' contains invalid characters. Only letters, digits, and hyphens are allowed.");
        let ghost e0 = errors@;
        errors.push(msg);
        proof {
            lemma_strs_view_push(e0, errors@.last());
            lemma_deep_is_strs(errors);
        }
    }
    let ghost s5 = s4 + (
    if !all_name_chars(nv) {
        seq![
            "Skill name '"@ + nv
                + "' contains invalid characters. Only letters, digits, and hyphens are allowed."@,
        ]
    } else {
        Seq::<Seq<char>>::empty()
    });
    assert(errors.deep_view() =~= s5);
    match dir_name {
        Some(d) => {
            let dc = chars_vec(d.as_str());
            let nd = nfkc_chars(&dc);
            if !chars_eq(&nd, &n) {
                let mut msg = String::from_str("Directory name '");
                msg.append(d.as_str());
                msg.append("' must match skill name '");
                msg.append(n_str.as_str());
                msg.append("'");
                let ghost e0 = errors@;
                errors.push(msg);
                proof {
                    lemma_strs_view_push(e0, errors@.last());
                    lemma_deep_is_strs(errors);
                }
            }
        },
        None => {},
    }
    let ghost s6 = s5 + (
    match opt_view(*dir_name) {
        Some(d) => if nfkc_of(d) != nv {
            seq!["Directory name '"@ + d + "' must match skill name '"@ + nv + "'"@]
        } else {
            Seq::<Seq<char>>::empty()
        },
        None => Seq::<Seq<char>>::empty(),
    });
    assert(errors.deep_view() =~= s6);
    assert(s6 =~= spec_name_checks(nv, opt_view(*dir_name)));
    errors
}

/// The description rule: non-empty after trimming, and at most 1024 bytes.
pub open spec fn spec_validate_description(d: Seq<char>) -> Seq<Seq<char>> {
    if d.len() == 0 || trimmed(d).len() == 0 {
        seq![msg_nonempty("description"@)]
    } else if byte_len(d) > 1024 {
        seq![
            "Description exceeds 1024 character limit ("@ + dec_str(byte_len(d) as int)
                + " chars)"@,
        ]
    } else {
        Seq::empty()
    }
}

/// Validate a description against its shape and length rules.
pub fn validate_description(description: &str) -> (r: Vec<String>)
    ensures
        r.deep_view() == spec_validate_description(description@),
{
    let mut errors: Vec<String> = Vec::new();
    proof {
        lemma_deep_is_strs(errors);
    }
    let raw = chars_vec(description);
    let t = trim_chars(&raw);
    if raw.len() == 0 || t.len() == 0 {
        let ghost e0 = errors@;
        errors.push(String::from_str("Field 'description' must be a non-empty string"));
        proof {
            lemma_strs_view_push(e0, errors@.last());
            lemma_deep_is_strs(errors);
            assert(errors.deep_view() =~= seq![msg_nonempty("description"@)]) by {
                reveal_strlit("Field 'description' must be a non-empty string");
                reveal_strlit("Field '");
                reveal_strlit("description");
                reveal_strlit("' must be a non-empty string");
                assert(errors.deep_view()[0] =~= msg_nonempty("description"@));
            }
        }
        return errors;
    }
    if description.len() > MAX_DESCRIPTION_LENGTH {
        let mut msg = String::from_str("Description exceeds 1024 character limit (");
        let cnt = usize_to_string(description.len());
        msg.append(cnt.as_str());
        msg.append(" chars)");
        let ghost e0 = errors@;
        errors.push(msg);
        proof {
            lemma_strs_view_push(e0, errors@.last());
            lemma_deep_is_strs(errors);
            assert(errors.deep_view() =~= spec_validate_description(description@));
        }
    }
    assert(errors.deep_view() =~= spec_validate_description(description@));
    errors
}

/// The compatibility rule: at most 500 bytes; absence is never an error.
pub open spec fn spec_validate_compatibility(c: Seq<char>) -> Seq<Seq<char>> {
    if byte_len(c) > 500 {
        seq![
            "Compatibility exceeds 500 character limit ("@ + dec_str(byte_len(c) as int)
                + " chars)"@,
        ]
    } else {
        Seq::empty()
    }
}

/// Validate a compatibility field against its length rule.
pub fn validate_compatibility(compatibility: &str) -> (r: Vec<String>)
    ensures
        r.deep_view() == spec_validate_compatibility(compatibility@),
{
    let mut errors: Vec<String> = Vec::new();
    proof {
        lemma_deep_is_strs(errors);
    }
    if compatibility.len() > MAX_COMPATIBILITY_LENGTH {
        let mut msg = String::from_str("Compatibility exceeds 500 character limit (");
        let cnt = usize_to_string(compatibility.len());
        msg.append(cnt.as_str());
        msg.append(" chars)");
        let ghost e0 = errors@;
        errors.push(msg);
        proof {
            lemma_strs_view_push(e0, errors@.last());
            lemma_deep_is_strs(errors);
        }
    }
    assert(errors.deep_view() =~= spec_validate_compatibility(compatibility@));
    errors
}

/// The name part of the rule set: missing key, wrong shape, or the name
/// rule itself.
pub open spec fn spec_name_rule(entries: Seq<(Seq<char>, FmValueV)>, dir: Option<Seq<char>>) -> Seq<
    Seq<char>,
> {
    match lookup(entries, "name"@) {
        None => seq![msg_missing("name"@)],
        Some(FmValueV::Str(n)) => spec_validate_name(n, dir),
        Some(_) => seq![msg_nonempty("name"@)],
    }
}

/// The description part of the rule set.
pub open spec fn spec_desc_rule(entries: Seq<(Seq<char>, FmValueV)>) -> Seq<Seq<char>> {
    match lookup(entries, "description"@) {
        None => seq![msg_missing("description"@)],
        Some(FmValueV::Str(d)) => spec_validate_description(d),
        Some(_) => seq![msg_nonempty("description"@)],
    }
}

/// The compatibility part of the rule set.
pub open spec fn spec_compat_rule(entries: Seq<(Seq<char>, FmValueV)>) -> Seq<Seq<char>> {
    match lookup(entries, "compatibility"@) {
        Some(FmValueV::Str(c)) => spec_validate_compatibility(c),
        _ => Seq::empty(),
    }
}

/// The whole mapping-based rule set, accumulating all violations: the
/// allowed-keys check, then the name, description and compatibility rules.
pub open spec fn spec_validate_metadata(
    entries: Seq<(Seq<char>, FmValueV)>,
    dir: Option<Seq<char>>,
) -> Seq<Seq<char>> {
    spec_unexpected(entries) + spec_name_rule(entries, dir) + spec_desc_rule(entries)
        + spec_compat_rule(entries)
}

/// Validate a decoded header mapping against the whole rule set,
/// accumulating every applicable violation; `dir_name` is the directory's
/// final path component, where one is known.
pub fn validate_metadata(m: &FrontmatterMap, dir_name: &Option<String>) -> (r: Vec<String>)
    ensures
        r.deep_view() == spec_validate_metadata(m@, opt_view(*dir_name)),
{
    let mut errors = validate_metadata_fields(m);
    let name_errors: Vec<String> = match m.get(&String::from_str("name")) {
        None => {
            let mut v: Vec<String> = Vec::new();
            v.push(String::from_str("Missing required field in frontmatter: name"));
            proof {
                lemma_deep_is_strs(v);
                assert(v.deep_view() =~= seq![msg_missing("name"@)]) by {
                    reveal_strlit("Missing required field in frontmatter: name");
                    reveal_strlit("Missing required field in frontmatter: ");
                    reveal_strlit("name");
                    assert(v.deep_view()[0] =~= msg_missing("name"@));
                }
            }
            v
        },
        Some(FmValue::Str(s)) => validate_name(s.as_str(), dir_name),
        Some(_) => {
            let mut v: Vec<String> = Vec::new();
            v.push(String::from_str("Field 'name' must be a non-empty string"));
            proof {
                lemma_deep_is_strs(v);
                assert(v.deep_view() =~= seq![msg_nonempty("name"@)]) by {
                    reveal_strlit("Field 'name' must be a non-empty string");
                    reveal_strlit("Field '");
                    reveal_strlit("name");
                    reveal_strlit("' must be a non-empty string");
                    assert(v.deep_view()[0] =~= msg_nonempty("name"@));
                }
            }
            v
        },
    };
    assert(name_errors.deep_view() == spec_name_rule(m@, opt_view(*dir_name)));
    let desc_errors: Vec<String> = match m.get(&String::from_str("description")) {
        None => {
            let mut v: Vec<String> = Vec::new();
            v.push(String::from_str("Missing required field in frontmatter: description"));
            proof {
                lemma_deep_is_strs(v);
                assert(v.deep_view() =~= seq![msg_missing("description"@)]) by {
                    reveal_strlit("Missing required field in frontmatter: description");
                    reveal_strlit("Missing required field in frontmatter: ");
                    reveal_strlit("description");
                    assert(v.deep_view()[0] =~= msg_missing("description"@));
                }
            }
            v
        },
        Some(FmValue::Str(s)) => validate_description(s.as_str()),
        Some(_) => {
            let mut v: Vec<String> = Vec::new();
            v.push(String::from_str("Field 'description' must be a non-empty string"));
            proof {
                lemma_deep_is_strs(v);
                assert(v.deep_view() =~= seq![msg_nonempty("description"@)]) by {
                    reveal_strlit("Field 'description' must be a non-empty string");
                    reveal_strlit("Field '");
                    reveal_strlit("description");
                    reveal_strlit("' must be a non-empty string");
                    assert(v.deep_view()[0] =~= msg_nonempty("description"@));
                }
            }
            v
        },
    };
    assert(desc_errors.deep_view() == spec_desc_rule(m@));
    let compat_errors: Vec<String> = match m.get(&String::from_str("compatibility")) {
        Some(FmValue::Str(s)) => validate_compatibility(s.as_str()),
        _ => {
            let v: Vec<String> = Vec::new();
            proof {
                lemma_deep_is_strs(v);
                assert(v.deep_view() =~= Seq::<Seq<char>>::empty());
            }
            v
        },
    };
    assert(compat_errors.deep_view() == spec_compat_rule(m@));
    let ghost u = errors.deep_view();
    let ghost nv = name_errors.deep_view();
    let ghost dv = desc_errors.deep_view();
    let ghost cv = compat_errors.deep_view();
    let ghost eb = errors@;
    let ghost nb = name_errors@;
    proof {
        lemma_deep_is_strs(errors);
        lemma_deep_is_strs(name_errors);
    }
    let mut name_errors = name_errors;
    errors.append(&mut name_errors);
    proof {
        assert(errors@ == eb + nb);
        lemma_strs_view_concat(eb, nb);
        lemma_deep_is_strs(errors);
        assert(errors.deep_view() =~= u + nv);
    }
    let ghost eb2 = errors@;
    let ghost db = desc_errors@;
    proof {
        lemma_deep_is_strs(errors);
        lemma_deep_is_strs(desc_errors);
    }
    let mut desc_errors = desc_errors;
    errors.append(&mut desc_errors);
    proof {
        assert(errors@ == eb2 + db);
        lemma_strs_view_concat(eb2, db);
        lemma_deep_is_strs(errors);
        assert(errors.deep_view() =~= u + nv + dv);
    }
    let ghost eb3 = errors@;
    let ghost cb = compat_errors@;
    proof {
        lemma_deep_is_strs(errors);
        lemma_deep_is_strs(compat_errors);
    }
    let mut compat_errors = compat_errors;
    errors.append(&mut compat_errors);
    proof {
        assert(errors@ == eb3 + cb);
        lemma_strs_view_concat(eb3, cb);
        lemma_deep_is_strs(errors);
        assert(errors.deep_view() =~= u + nv + dv + cv);
        assert(errors.deep_view() =~= spec_validate_metadata(m@, opt_view(*dir_name)));
    }
    errors
}



/// What probing a skill directory observed, before any rule runs: the
/// structural preconditions in the order they gate, and, when all of them
/// hold, the descriptor document's text.
#[derive(Debug)]
pub enum DirectoryProbe {
    Missing { path: String },
    NotDirectory { path: String },
    NoDescriptor,
    Unreadable { path: String, error: String },
    Readable { content: String },
}

/// Mathematical form of a `DirectoryProbe`.
pub enum DirectoryProbeV {
    Missing { path: Seq<char> },
    NotDirectory { path: Seq<char> },
    NoDescriptor,
    Unreadable { path: Seq<char>, error: Seq<char> },
    Readable { content: Seq<char> },
}

impl View for DirectoryProbe {
    type V = DirectoryProbeV;

    open spec fn view(&self) -> DirectoryProbeV {
        match self {
            DirectoryProbe::Missing { path } => (DirectoryProbeV::Missing { path: path@ }),
            DirectoryProbe::NotDirectory { path } => (DirectoryProbeV::NotDirectory {
                path: path@,
            }),
            DirectoryProbe::NoDescriptor => DirectoryProbeV::NoDescriptor,
            DirectoryProbe::Unreadable { path, error } => (DirectoryProbeV::Unreadable {
                path: path@,
                error: error@,
            }),
            DirectoryProbe::Readable { content } => (DirectoryProbeV::Readable {
                content: content@,
            }),
        }
    }
}

/// What directory-based validation returns for an observed directory
/// state: each structural failure yields its single violation, and a
/// readable document is parsed and held to the mapping-based rule set.
pub open spec fn spec_validate(probe: DirectoryProbeV, dir: Option<Seq<char>>) -> Seq<Seq<char>> {
    match probe {
        DirectoryProbeV::Missing { path } => seq!["Path does not exist: "@ + path],
        DirectoryProbeV::NotDirectory { path } => seq!["Not a directory: "@ + path],
        DirectoryProbeV::NoDescriptor => seq!["Missing required file: SKILL.md"@],
        DirectoryProbeV::Unreadable { path, error } => seq![
            "Failed to read "@ + path + ": "@ + error,
        ],
        DirectoryProbeV::Readable { content } => match spec_parse_frontmatter(content) {
            Err(msg) => seq![msg],
            Ok(pr) => spec_validate_metadata(pr.0, dir),
        },
    }
}

/// Validate a skill directory, as observed by its probe.
///
/// Structural failures short-circuit with a single violation; once a
/// document is readable, the mapping-based rule set accumulates all
/// violations. `dir_name` is the directory's final path component, used
/// for the name agreement check.
pub fn validate(probe: &DirectoryProbe, dir_name: &Option<String>) -> (r: Vec<String>)
    ensures
        r.deep_view() == spec_validate(probe@, opt_view(*dir_name)),
{
    match probe {
        DirectoryProbe::Missing { path } => {
            let mut msg = String::from_str("Path does not exist: ");
            msg.append(path.as_str());
            let mut r: Vec<String> = Vec::new();
            r.push(msg);
            proof {
                lemma_deep_is_strs(r);
                assert(r.deep_view() =~= spec_validate(probe@, opt_view(*dir_name)));
            }
            r
        },
        DirectoryProbe::NotDirectory { path } => {
            let mut msg = String::from_str("Not a directory: ");
            msg.append(path.as_str());
            let mut r: Vec<String> = Vec::new();
            r.push(msg);
            proof {
                lemma_deep_is_strs(r);
                assert(r.deep_view() =~= spec_validate(probe@, opt_view(*dir_name)));
            }
            r
        },
        DirectoryProbe::NoDescriptor => {
            let mut r: Vec<String> = Vec::new();
            r.push(String::from_str("Missing required file: SKILL.md"));
            proof {
                lemma_deep_is_strs(r);
                assert(r.deep_view() =~= spec_validate(probe@, opt_view(*dir_name)));
            }
            r
        },
        DirectoryProbe::Unreadable { path, error } => {
            let mut msg = String::from_str("Failed to read ");
            msg.append(path.as_str());
            msg.append(": ");
            msg.append(error.as_str());
            let mut r: Vec<String> = Vec::new();
            r.push(msg);
            proof {
                lemma_deep_is_strs(r);
                assert(r.deep_view() =~= spec_validate(probe@, opt_view(*dir_name)));
            }
            r
        },
        DirectoryProbe::Readable { content } => {
            match crate::parser::parse_frontmatter(content.as_str()) {
                Err(e) => {
                    let mut r: Vec<String> = Vec::new();
                    r.push(e.message());
                    proof {
                        lemma_deep_is_strs(r);
                        assert(r.deep_view() =~= spec_validate(probe@, opt_view(*dir_name)));
                    }
                    r
                },
                Ok(p) => validate_metadata(&p.0, dir_name),
            }
        },
    }
}

/// Validation is idempotent: the violation list is a function of the
/// observed directory state and directory name alone, so validating the
/// same unchanged directory twice yields identical lists in identical
/// order. The `ensures` of `validate` pins each call's result to
/// `spec_validate`, and this equality carries that over to any two calls
/// whose observations agree.
pub proof fn lemma_validate_idempotent(
    p1: DirectoryProbeV,
    p2: DirectoryProbeV,
    d1: Option<Seq<char>>,
    d2: Option<Seq<char>>,
)
    requires
        p1 == p2,
        d1 == d2,
    ensures
        spec_validate(p1, d1) == spec_validate(p2, d2),
{
}

/// A header that validates cleanly is always readable: an empty violation
/// list means the property reader succeeds on the same entries.
pub proof fn lemma_valid_implies_readable(
    entries: Seq<(Seq<char>, FmValueV)>,
    dir: Option<Seq<char>>,
)
    ensures
        spec_validate_metadata(entries, dir).len() == 0 ==> spec_read_entries(entries) is Ok,
{
    if spec_validate_metadata(entries, dir).len() == 0 {
        assert(spec_name_rule(entries, dir).len() == 0);
        assert(spec_desc_rule(entries).len() == 0);
        match lookup(entries, "name"@) {
            Some(FmValueV::Str(n)) => {
                assert(spec_validate_name(n, dir).len() == 0);
                assert(trimmed(n).len() > 0);
            },
            _ => {
                assert(spec_name_rule(entries, dir).len() == 1);
            },
        }
        match lookup(entries, "description"@) {
            Some(FmValueV::Str(d)) => {
                assert(spec_validate_description(d).len() == 0);
                assert(trimmed(d).len() > 0);
            },
            _ => {
                assert(spec_desc_rule(entries).len() == 1);
            },
        }
        assert(spec_read_entries(entries) is Ok);
    }
}

/// The mapping-based rule set and the property reader agree on validity:
/// over a header whose keys are all allowed, validation accepts exactly
/// when reading the properties succeeds and the name, description and
/// compatibility rules all pass.
pub proof fn lemma_validate_agrees_with_read(
    entries: Seq<(Seq<char>, FmValueV)>,
    dir: Option<Seq<char>>,
)
    requires
        forall|i: int| 0 <= i < entries.len() ==> spec_allowed_key(#[trigger] entries[i].0),
    ensures
        spec_validate_metadata(entries, dir).len() == 0 <==> {
            &&& spec_read_entries(entries) is Ok
            &&& spec_name_rule(entries, dir).len() == 0
            &&& spec_desc_rule(entries).len() == 0
            &&& spec_compat_rule(entries).len() == 0
        },
{
    let keys = fm_keys(entries);
    let pred = |k: Seq<char>| !spec_allowed_key(k);
    assert(keys.all(|k: Seq<char>| !pred(k))) by {
        assert forall|i: int| 0 <= i < keys.len() implies !pred(#[trigger] keys[i]) by {
            assert(keys[i] == entries[i].0);
        }
    }
    keys.lemma_all_neg_filter_empty(pred);
    assert(spec_unexpected(entries) =~= Seq::<Seq<char>>::empty());
    if spec_validate_metadata(entries, dir).len() == 0 {
        match lookup(entries, "name"@) {
            Some(FmValueV::Str(n)) => {
                assert(spec_validate_name(n, dir).len() == 0);
                assert(trimmed(n).len() > 0);
            },
            _ => {
                assert(spec_name_rule(entries, dir).len() == 1);
            },
        }
        match lookup(entries, "description"@) {
            Some(FmValueV::Str(d)) => {
                assert(spec_validate_description(d).len() == 0);
                assert(trimmed(d).len() > 0);
            },
            _ => {
                assert(spec_desc_rule(entries).len() == 1);
            },
        }
        assert(spec_read_entries(entries) is Ok);
    }
}

} // verus!
