//! Frontmatter handling: splitting a note into metadata block and body, and
//! decoding the block into a structured value plus the recognized fields
//! (title, tags, description).
//!
//! Decoding is permissive: an absent or malformed block yields an empty
//! mapping, never an error.

use vstd::prelude::*;
use crate::text::{chars_of, string_of, sub_chars, trim_chars, trimmed};

verus! {

/// A decoded metadata value: a tagged union over null, booleans, numbers
/// (kept in their displayed text, so nothing is lost to rounding), strings,
/// sequences and string-keyed mappings.  Unrecognized keys ride through the
/// parse untouched in this form.
#[derive(Debug, PartialEq)]
pub enum MetaValue {
    Null,
    Flag(bool),
    Num(String),
    Text(String),
    List(Vec<MetaValue>),
    Dict(Vec<(String, MetaValue)>),
}

/// The mathematical shape of a `MetaValue`: the same tree over `Seq<char>`.
pub enum MetaModel {
    Null,
    Flag(bool),
    Num(Seq<char>),
    Text(Seq<char>),
    List(Seq<MetaModel>),
    Dict(Seq<(Seq<char>, MetaModel)>),
}

/// The model of a `MetaValue`, replacing every string by its view.
pub open spec fn meta_model(m: MetaValue) -> MetaModel
    decreases m,
    via meta_model_dec
{
    match m {
        MetaValue::Null => MetaModel::Null,
        MetaValue::Flag(b) => MetaModel::Flag(b),
        MetaValue::Num(s) => MetaModel::Num(s@),
        MetaValue::Text(s) => MetaModel::Text(s@),
        MetaValue::List(v) => MetaModel::List(models_of(v@)),
        MetaValue::Dict(v) => MetaModel::Dict(entry_models_of(v@)),
    }
}

/// The models of a sequence of values, in order.
pub open spec fn models_of(v: Seq<MetaValue>) -> Seq<MetaModel>
    decreases v,
    via models_of_dec
{
    if v.len() == 0 {
        Seq::empty()
    } else {
        models_of(v.drop_last()).push(meta_model(v.last()))
    }
}

/// The models of a sequence of keyed entries, in order.
pub open spec fn entry_models_of(v: Seq<(String, MetaValue)>) -> Seq<(Seq<char>, MetaModel)>
    decreases v,
    via entry_models_of_dec
{
    if v.len() == 0 {
        Seq::empty()
    } else {
        entry_models_of(v.drop_last()).push((v.last().0@, meta_model(v.last().1)))
    }
}

#[via_fn]
proof fn meta_model_dec(m: MetaValue) {
    match m {
        MetaValue::List(v) => {
            assert(decreases_to!(m => v));
            assert(decreases_to!(v => v@));
        },
        MetaValue::Dict(v) => {
            assert(decreases_to!(m => v));
            assert(decreases_to!(v => v@));
        },
        _ => {},
    }
}

#[via_fn]
proof fn models_of_dec(v: Seq<MetaValue>) {
    broadcast use vstd::seq::axiom_seq_index_decreases;
    broadcast use vstd::seq::axiom_seq_subrange_decreases;

    if v.len() > 0 {
        assert(decreases_to!(v => v.subrange(0, v.len() - 1)));
        assert(decreases_to!(v => v[v.len() - 1]));
    }
}

#[via_fn]
proof fn entry_models_of_dec(v: Seq<(String, MetaValue)>) {
    broadcast use vstd::seq::axiom_seq_index_decreases;
    broadcast use vstd::seq::axiom_seq_subrange_decreases;

    if v.len() > 0 {
        assert(decreases_to!(v => v.subrange(0, v.len() - 1)));
        assert(decreases_to!(v => v[v.len() - 1]));
        assert(decreases_to!(v[v.len() - 1] => v[v.len() - 1].1));
    }
}

/// A mapping with no keys: what a missing or malformed block decodes to.
pub open spec fn is_empty_dict(m: MetaValue) -> bool {
    match m {
        MetaValue::Dict(v) => v@.len() == 0,
        _ => false,
    }
}

/// What the YAML decoder yields on the given block text, `None` on a decode
/// failure.  YAML decoding is a function of the text alone.
pub uninterp spec fn yaml_meta_of(s: Seq<char>) -> Option<MetaValue>;

#[verifier::external_type_specification]
#[verifier::external_body]
pub struct ExValue(serde_json::Value);

/// Relies on serde_json::Value's six variants: each is carried one for one to
/// the matching `MetaValue` variant, a number by its displayed text.
#[verifier::external_body]
fn meta_from_value(v: &serde_json::Value) -> (r: MetaValue) {
    match v {
        serde_json::Value::Null => MetaValue::Null,
        serde_json::Value::Bool(b) => MetaValue::Flag(*b),
        serde_json::Value::Number(n) => MetaValue::Num(n.to_string()),
        serde_json::Value::String(s) => MetaValue::Text(s.clone()),
        serde_json::Value::Array(a) => MetaValue::List(a.iter().map(meta_from_value).collect()),
        serde_json::Value::Object(o) => MetaValue::Dict(
            o.iter().map(|p| (p.0.clone(), meta_from_value(p.1))).collect(),
        ),
    }
}

/// Relies on serde_yaml::from_str deserializing into serde_json::Value: the
/// result is determined by the input text, and failure is reported, never
/// raised.
#[verifier::external_body]
fn parse_yaml_meta(s: &str) -> (r: Option<MetaValue>)
    ensures
        r == yaml_meta_of(s@),
{
    match serde_yaml::from_str::<serde_json::Value>(s) {
        Ok(v) => Some(meta_from_value(&v)),
        Err(_) => None,
    }
}

/// What the decoder owes: the decoded YAML value for a well-formed block,
/// and the empty mapping for an empty or malformed one.
pub open spec fn decodes_to(block: Seq<char>, m: MetaValue) -> bool {
    if block.len() == 0 {
        is_empty_dict(m)
    } else {
        match yaml_meta_of(block) {
            Some(v) => m == v,
            None => is_empty_dict(m),
        }
    }
}

/// Decode a metadata block; never fails.
pub fn decode_meta(block: &str) -> (m: MetaValue)
    ensures
        decodes_to(block@, m),
{
    if block.is_empty() {
        MetaValue::Dict(Vec::new())
    } else {
        match parse_yaml_meta(block) {
            Some(m) => m,
            None => MetaValue::Dict(Vec::new()),
        }
    }
}

/// The value under the first entry with the given key, if any.
pub open spec fn dict_lookup(es: Seq<(String, MetaValue)>, k: Seq<char>) -> Option<MetaValue>
    decreases es.len(),
{
    if es.len() == 0 {
        None
    } else if es[0].0@ == k {
        Some(es[0].1)
    } else {
        dict_lookup(es.drop_first(), k)
    }
}

/// Executable lookup matching `dict_lookup`.
fn dict_get<'a>(es: &'a Vec<(String, MetaValue)>, k: &str) -> (r: Option<&'a MetaValue>)
    ensures
        match r {
            Some(m) => dict_lookup(es@, k@) == Some(*m),
            None => dict_lookup(es@, k@) is None,
        },
{
    let key = String::from_str(k);
    let mut i: usize = 0;
    proof {
        assert(es@.skip(0) =~= es@);
    }
    loop
        invariant
            i <= es@.len(),
            key@ == k@,
            dict_lookup(es@, k@) == dict_lookup(es@.skip(i as int), k@),
        decreases es@.len() - i,
    {
        if i >= es.len() {
            return None;
        }
        if es[i].0 == key {
            proof {
                assert(es@.skip(i as int)[0] == es@[i as int]);
            }
            return Some(&es[i].1);
        }
        proof {
            assert(es@.skip(i as int).drop_first() =~= es@.skip(i as int + 1));
            assert(es@.skip(i as int)[0] == es@[i as int]);
        }
        i = i + 1;
    }
}

/// The recognized `title` field: present only when the value is a string.
pub open spec fn spec_title(m: MetaValue) -> Option<Seq<char>> {
    match m {
        MetaValue::Dict(es) => match dict_lookup(es@, "title"@) {
            Some(MetaValue::Text(s)) => Some(s@),
            _ => None,
        },
        _ => None,
    }
}

/// The recognized `description` field: present only when the value is a string.
pub open spec fn spec_description(m: MetaValue) -> Option<Seq<char>> {
    match m {
        MetaValue::Dict(es) => match dict_lookup(es@, "description"@) {
            Some(MetaValue::Text(s)) => Some(s@),
            _ => None,
        },
        _ => None,
    }
}

/// The string entries of a list of metadata values, in order; anything that
/// is not a string is dropped.
pub open spec fn tags_from(items: Seq<MetaValue>) -> Seq<Seq<char>>
    decreases items.len(),
{
    if items.len() == 0 {
        Seq::empty()
    } else {
        tags_from(items.drop_last()) + (match items.last() {
            MetaValue::Text(s) => seq![s@],
            _ => Seq::<Seq<char>>::empty(),
        })
    }
}

/// The recognized `tags` field: a single string is wrapped into a
/// one-element sequence, a list keeps its string entries, anything else is
/// the empty sequence.
pub open spec fn spec_tags(m: MetaValue) -> Seq<Seq<char>> {
    match m {
        MetaValue::Dict(es) => match dict_lookup(es@, "tags"@) {
            Some(MetaValue::Text(s)) => seq![s@],
            Some(MetaValue::List(items)) => tags_from(items@),
            _ => Seq::empty(),
        },
        _ => Seq::empty(),
    }
}

/// Extract the `title` field.
pub fn extract_title(m: &MetaValue) -> (r: Option<String>)
    ensures
        match r {
            Some(s) => spec_title(*m) == Some(s@),
            None => spec_title(*m) is None,
        },
{
    match m {
        MetaValue::Dict(es) => match dict_get(es, "title") {
            Some(MetaValue::Text(s)) => Some(s.clone()),
            _ => None,
        },
        _ => None,
    }
}

/// Extract the `description` field.
pub fn extract_description(m: &MetaValue) -> (r: Option<String>)
    ensures
        match r {
            Some(s) => spec_description(*m) == Some(s@),
            None => spec_description(*m) is None,
        },
{
    match m {
        MetaValue::Dict(es) => match dict_get(es, "description") {
            Some(MetaValue::Text(s)) => Some(s.clone()),
            _ => None,
        },
        _ => None,
    }
}

/// Extract the `tags` field, normalizing scalar-or-list to a list.
pub fn extract_tags(m: &MetaValue) -> (r: Vec<String>)
    ensures
        r.deep_view() == spec_tags(*m),
{
    let mut out: Vec<String> = Vec::new();
    match m {
        MetaValue::Dict(es) => match dict_get(es, "tags") {
            Some(MetaValue::Text(s)) => {
                out.push(s.clone());
                proof {
                    assert(out.deep_view() =~= spec_tags(*m));
                }
            },
            Some(MetaValue::List(items)) => {
                let mut i: usize = 0;
                while i < items.len()
                    invariant
                        i <= items@.len(),
                        out.deep_view() == tags_from(items@.take(i as int)),
                    decreases items@.len() - i,
                {
                    proof {
                        assert(items@.take(i as int + 1).drop_last() =~= items@.take(i as int));
                        assert(items@.take(i as int + 1).last() == items@[i as int]);
                    }
                    match &items[i] {
                        MetaValue::Text(s) => {
                            let ghost prev = out.deep_view();
                            out.push(s.clone());
                            proof {
                                assert(out.deep_view() =~= prev.push(s@));
                                assert(prev.push(s@) =~= tags_from(items@.take(i as int + 1)));
                            }
                        },
                        _ => {
                            proof {
                                assert(out.deep_view() =~= tags_from(items@.take(i as int + 1)));
                            }
                        },
                    }
                    i = i + 1;
                }
                proof {
                    assert(items@.take(items@.len() as int) =~= items@);
                }
            },
            _ => {
                proof {
                    assert(out.deep_view() =~= spec_tags(*m));
                }
            },
        },
        _ => {
            proof {
                assert(out.deep_view() =~= spec_tags(*m));
            }
        },
    }
    out
}

/// The text opens with a line consisting exactly of `---`.
pub open spec fn fm_open(s: Seq<char>) -> bool {
    s.len() >= 3 && s[0] == '-' && s[1] == '-' && s[2] == '-' && (s.len() == 3 || s[3] == '\n')
}

/// A line consisting exactly of `---` starts at index `k`.
pub open spec fn fm_close_at(s: Seq<char>, k: int) -> bool {
    4 <= k && k + 3 <= s.len() && s[k - 1] == '\n' && s[k] == '-' && s[k + 1] == '-' && s[k + 2]
        == '-' && (k + 3 == s.len() || s[k + 3] == '\n')
}

/// The least closing-delimiter position at or after `k`, if any.
pub open spec fn find_close(s: Seq<char>, k: int) -> Option<int>
    decreases s.len() + 3 - k,
{
    if k < 0 || k + 3 > s.len() {
        None
    } else if fm_close_at(s, k) {
        Some(k)
    } else {
        find_close(s, k + 1)
    }
}

/// The metadata block for a closing delimiter at `k`: the characters
/// strictly between the two delimiter lines.
pub open spec fn fm_inner(s: Seq<char>, k: int) -> Seq<char> {
    if k >= 5 {
        s.subrange(4, k - 1)
    } else {
        Seq::empty()
    }
}

/// The body for a closing delimiter at `k`: the characters after the
/// closing delimiter line.
pub open spec fn fm_tail(s: Seq<char>, k: int) -> Seq<char> {
    if k + 3 == s.len() {
        Seq::empty()
    } else {
        s.subrange(k + 4, s.len() as int)
    }
}

/// How a note's text splits into metadata block and body: between the two
/// delimiter lines and after the second one, both trimmed, when both
/// delimiters stand; otherwise no block, and the whole text as body.
pub open spec fn split_spec(s: Seq<char>) -> (Seq<char>, Seq<char>) {
    if fm_open(s) {
        match find_close(s, 4) {
            Some(k) => (trimmed(fm_inner(s, k)), trimmed(fm_tail(s, k))),
            None => (Seq::empty(), trimmed(s)),
        }
    } else {
        (Seq::empty(), trimmed(s))
    }
}

/// Executable search matching `find_close(_, 4)`.
fn find_close_exec(v: &Vec<char>) -> (r: Option<usize>)
    requires
        v@.len() >= 3,
    ensures
        match r {
            Some(k) => 4 <= k && k + 3 <= v@.len() && Some(k as int) == find_close(v@, 4),
            None => find_close(v@, 4) is None,
        },
{
    let mut k: usize = 4;
    loop
        invariant
            4 <= k <= v@.len() + 1,
            find_close(v@, 4) == find_close(v@, k as int),
        decreases v@.len() + 3 - k,
    {
        if k >= v.len() || v.len() - k < 3 {
            return None;
        }
        if v[k - 1] == '\n' && v[k] == '-' && v[k + 1] == '-' && v[k + 2] == '-' && (k + 3
            == v.len() || v[k + 3] == '\n') {
            return Some(k);
        }
        k = k + 1;
    }
}

/// Split a note's raw text into its metadata block and its body.
///
/// If the text starts with a `---` line and another `---` line follows, the
/// block is what stands strictly between them and the body what follows,
/// both trimmed of surrounding whitespace.  Otherwise the block is empty and
/// the whole trimmed text is the body.  Missing delimiters are not an error.
pub fn split_formatter(raw: &str) -> (r: (String, String))
    ensures
        r.0@ == split_spec(raw@).0,
        r.1@ == split_spec(raw@).1,
{
    let v = chars_of(raw);
    let open = v.len() >= 3 && v[0] == '-' && v[1] == '-' && v[2] == '-' && (v.len() == 3 || v[3]
        == '\n');
    if open {
        match find_close_exec(&v) {
            Some(k) => {
                let inner = if k >= 5 {
                    sub_chars(&v, 4, k - 1)
                } else {
                    Vec::new()
                };
                let tail = if k + 3 == v.len() {
                    Vec::new()
                } else {
                    sub_chars(&v, k + 4, v.len())
                };
                proof {
                    assert(inner@ =~= fm_inner(v@, k as int));
                    assert(tail@ =~= fm_tail(v@, k as int));
                }
                let meta = trim_chars(&inner);
                let body = trim_chars(&tail);
                (string_of(&meta), string_of(&body))
            },
            None => {
                let body = trim_chars(&v);
                (String::new(), string_of(&body))
            },
        }
    } else {
        let body = trim_chars(&v);
        (String::new(), string_of(&body))
    }
}

} // verus!
