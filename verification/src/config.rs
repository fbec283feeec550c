//! The application's configuration document: a single YAML mapping of
//! string keys to scalar values, read with caller-supplied defaults and
//! rewritten in full on update.  An absent, empty or unparseable file
//! behaves exactly like an empty mapping and is never fatal.

use vstd::prelude::*;

use crate::document::field_line_spec;
use crate::strutil::{filter_seq, join_sep, join_sep_spec, lemma_filter_seq_app, str_eq};

verus! {

/// The string coercion of the scalar at `key` in the first YAML document
/// of `text`: absent when the text does not parse, holds no document, or
/// the key is missing or mapped to a non-scalar.
pub uninterp spec fn yaml_string_at(text: Seq<char>, key: Seq<char>) -> Option<Seq<char>>;

/// The scalar entries of the first YAML document's top-level mapping, in
/// document order; empty when the text does not parse or holds no
/// mapping.
pub uninterp spec fn config_scalars_of(text: Seq<char>) -> Seq<(Seq<char>, Seq<char>)>;

/// Relies on `yaml_rust::YamlLoader::load_from_str`, `Yaml`'s `Index`
/// over string keys, and its scalar variants: looks one key up in the
/// first document and coerces a string, boolean or integer scalar to its
/// string form.
#[verifier::external_body]
fn lookup_yaml_scalar(text: &str, key: &str) -> (r: Option<String>)
    ensures
        match yaml_string_at(text@, key@) {
            Some(v) => r matches Some(s) && s@ == v,
            None => r is None,
        },
{
    let docs = match yaml_rust::YamlLoader::load_from_str(text) {
        Ok(d) => d,
        Err(_) => return None,
    };
    let doc = match docs.get(0) {
        Some(d) => d,
        None => return None,
    };
    match &doc[key] {
        yaml_rust::Yaml::String(v) => Some(v.clone()),
        yaml_rust::Yaml::Boolean(b) => Some(b.to_string()),
        yaml_rust::Yaml::Integer(i) => Some(i.to_string()),
        _ => None,
    }
}

/// Relies on `yaml_rust::YamlLoader::load_from_str` and the `Hash`
/// variant of `Yaml`: collects the scalar entries of the first
/// document's top-level mapping as string pairs, in document order.
#[verifier::external_body]
fn parse_config_scalars(text: &str) -> (r: Vec<(String, String)>)
    ensures
        r.deep_view() == config_scalars_of(text@),
{
    let mut out = Vec::new();
    if let Ok(docs) = yaml_rust::YamlLoader::load_from_str(text) {
        if let Some(yaml_rust::Yaml::Hash(h)) = docs.get(0) {
            for (k, v) in h.iter() {
                let vs = match v {
                    yaml_rust::Yaml::String(s) => s.clone(),
                    yaml_rust::Yaml::Boolean(b) => b.to_string(),
                    yaml_rust::Yaml::Integer(i) => i.to_string(),
                    _ => continue,
                };
                if let yaml_rust::Yaml::String(ks) = k { out.push((ks.clone(), vs)); }
            }
        }
    }
    out
}

/// Reads one key with a typed default: the scalar's string form when
/// present, the caller's default when the file is absent or the key
/// cannot be read.
pub fn read_config(config_text: Option<&str>, key: &str, default: &str) -> (r: String)
    ensures
        config_text is None ==> r@ == default@,
        config_text matches Some(t) ==> (yaml_string_at(t@, key@) is None ==> r@ == default@),
        config_text matches Some(t) ==> (yaml_string_at(t@, key@) matches Some(v) ==> r@ == v),
{
    match config_text {
        None => default.to_owned(),
        Some(t) => match lookup_yaml_scalar(t, key) {
            Some(v) => v,
            None => default.to_owned(),
        },
    }
}

/// The mapping a pair list denotes: later entries win.
pub open spec fn pairs_map(pairs: Seq<(Seq<char>, Seq<char>)>) -> Map<Seq<char>, Seq<char>>
    decreases pairs.len(),
{
    if pairs.len() == 0 {
        Map::empty()
    } else {
        pairs_map(pairs.drop_last()).insert(pairs.last().0, pairs.last().1)
    }
}

/// The document after an update: entries whose key is overwritten are
/// dropped, and the new entries follow the kept ones.
pub open spec fn updated_pairs_spec(
    old_pairs: Seq<(Seq<char>, Seq<char>)>,
    new_pairs: Seq<(Seq<char>, Seq<char>)>,
) -> Seq<(Seq<char>, Seq<char>)> {
    filter_seq(
        old_pairs,
        |p: (Seq<char>, Seq<char>)| !pairs_map(new_pairs).dom().contains(p.0),
    ) + new_pairs
}

/// A key is in the mapping exactly when some entry carries it.
pub proof fn lemma_pairs_map_dom(pairs: Seq<(Seq<char>, Seq<char>)>, k: Seq<char>)
    ensures
        pairs_map(pairs).dom().contains(k) <==> exists|i: int|
            0 <= i < pairs.len() && (#[trigger] pairs[i]).0 == k,
    decreases pairs.len(),
{
    if pairs.len() > 0 {
        lemma_pairs_map_dom(pairs.drop_last(), k);
        if pairs_map(pairs).dom().contains(k) {
            if pairs.last().0 == k {
                assert(pairs[pairs.len() - 1].0 == k);
            } else {
                let i = choose|i: int|
                    0 <= i < pairs.drop_last().len() && (#[trigger] pairs.drop_last()[i]).0 == k;
                assert(pairs[i].0 == k);
            }
        }
        if exists|i: int| 0 <= i < pairs.len() && (#[trigger] pairs[i]).0 == k {
            let i = choose|i: int| 0 <= i < pairs.len() && (#[trigger] pairs[i]).0 == k;
            if i < pairs.len() - 1 {
                assert(pairs.drop_last()[i].0 == k);
            }
        }
    }
}

/// Concatenation of pair lists unions their mappings, later list winning.
pub proof fn lemma_pairs_map_app(
    a: Seq<(Seq<char>, Seq<char>)>,
    b: Seq<(Seq<char>, Seq<char>)>,
)
    ensures
        pairs_map(a + b) == pairs_map(a).union_prefer_right(pairs_map(b)),
    decreases b.len(),
{
    if b.len() == 0 {
        assert(a + b =~= a);
        assert(pairs_map(a).union_prefer_right(pairs_map(b)) =~= pairs_map(a));
    } else {
        assert((a + b).drop_last() =~= a + b.drop_last());
        assert((a + b).last() == b.last());
        lemma_pairs_map_app(a, b.drop_last());
        assert(pairs_map(a).union_prefer_right(pairs_map(b.drop_last())).insert(
            b.last().0,
            b.last().1,
        ) =~= pairs_map(a).union_prefer_right(pairs_map(b)));
    }
}

/// An update writes every new value and preserves every other key: the
/// updated document's mapping is the old mapping with the new one laid
/// over it.
pub proof fn lemma_update_is_union(
    old_pairs: Seq<(Seq<char>, Seq<char>)>,
    new_pairs: Seq<(Seq<char>, Seq<char>)>,
)
    ensures
        pairs_map(updated_pairs_spec(old_pairs, new_pairs)) == pairs_map(
            old_pairs,
        ).union_prefer_right(pairs_map(new_pairs)),
    decreases old_pairs.len(),
{
    let p = |q: (Seq<char>, Seq<char>)| !pairs_map(new_pairs).dom().contains(q.0);
    let mb = pairs_map(new_pairs);
    if old_pairs.len() == 0 {
        assert(filter_seq(old_pairs, p) =~= Seq::<(Seq<char>, Seq<char>)>::empty());
        assert(filter_seq(old_pairs, p) + new_pairs =~= new_pairs);
        assert(pairs_map(old_pairs).union_prefer_right(mb) =~= mb);
    } else {
        let ad = old_pairs.drop_last();
        let l = old_pairs.last();
        lemma_update_is_union(ad, new_pairs);
        assert(old_pairs =~= ad + seq![l]);
        lemma_filter_seq_app(ad, seq![l], p);
        assert(seq![l].skip(1) =~= Seq::<(Seq<char>, Seq<char>)>::empty());
        assert(filter_seq(seq![l].skip(1), p) =~= Seq::<(Seq<char>, Seq<char>)>::empty());
        if p(l) {
            assert(filter_seq(seq![l], p) =~= seq![l]);
            assert(filter_seq(old_pairs, p) =~= filter_seq(ad, p) + seq![l]);
            let fa = filter_seq(ad, p);
            assert((fa + seq![l] + new_pairs) =~= (fa + (seq![l] + new_pairs)));
            lemma_pairs_map_app(fa + seq![l], new_pairs);
            lemma_pairs_map_app(fa, seq![l]);
            lemma_pairs_map_app(fa, new_pairs);
            assert((fa + seq![l]).drop_last() =~= fa);
            assert(pairs_map(fa + seq![l]) == pairs_map(fa).insert(l.0, l.1));
            assert(updated_pairs_spec(old_pairs, new_pairs) =~= (fa + seq![l]) + new_pairs);
            let mfa = pairs_map(fa);
            let mad = pairs_map(ad);
            assert(pairs_map(old_pairs) == mad.insert(l.0, l.1));
            assert(!mb.dom().contains(l.0));
            assert(pairs_map(updated_pairs_spec(ad, new_pairs)) == mfa.union_prefer_right(mb));
            assert(pairs_map(updated_pairs_spec(old_pairs, new_pairs)) == pairs_map(
                fa + seq![l],
            ).union_prefer_right(mb));
            assert(pairs_map(fa + seq![l]) == mfa.insert(l.0, l.1));
            assert(mfa.insert(l.0, l.1).union_prefer_right(mb) =~= mfa.union_prefer_right(
                mb,
            ).insert(l.0, l.1));
            assert(mad.insert(l.0, l.1).union_prefer_right(mb) =~= mad.union_prefer_right(
                mb,
            ).insert(l.0, l.1));
            assert(mfa.union_prefer_right(mb) == mad.union_prefer_right(mb));
        } else {
            assert(filter_seq(seq![l], p) =~= Seq::<(Seq<char>, Seq<char>)>::empty());
            assert(filter_seq(old_pairs, p) =~= filter_seq(ad, p));
            assert(updated_pairs_spec(old_pairs, new_pairs) =~= updated_pairs_spec(
                ad,
                new_pairs,
            ));
            assert(pairs_map(updated_pairs_spec(old_pairs, new_pairs)) =~= pairs_map(
                old_pairs,
            ).union_prefer_right(mb)) by {
                assert(pairs_map(old_pairs) == pairs_map(ad).insert(l.0, l.1));
                assert(mb.dom().contains(l.0));
            }
        }
    }
}

/// Updating twice lets the later update win where both write, keeps the
/// earlier update's other keys, and keeps untouched prior keys.
pub proof fn lemma_two_updates_compose(
    doc: Seq<(Seq<char>, Seq<char>)>,
    u1: Seq<(Seq<char>, Seq<char>)>,
    u2: Seq<(Seq<char>, Seq<char>)>,
    k: Seq<char>,
)
    ensures
        ({
            let m = pairs_map(updated_pairs_spec(updated_pairs_spec(doc, u1), u2));
            let m0 = pairs_map(doc);
            let m1 = pairs_map(u1);
            let m2 = pairs_map(u2);
            &&& (m2.dom().contains(k) ==> m.dom().contains(k) && m[k] == m2[k])
            &&& (!m2.dom().contains(k) && m1.dom().contains(k) ==> m.dom().contains(k) && m[k]
                == m1[k])
            &&& (!m2.dom().contains(k) && !m1.dom().contains(k) && m0.dom().contains(k)
                ==> m.dom().contains(k) && m[k] == m0[k])
            &&& (!m2.dom().contains(k) && !m1.dom().contains(k) && !m0.dom().contains(k)
                ==> !m.dom().contains(k))
        }),
{
    lemma_update_is_union(doc, u1);
    lemma_update_is_union(updated_pairs_spec(doc, u1), u2);
}

/// Checks whether any new entry carries this key.
fn pairs_have_key(new_values: &Vec<(String, String)>, key: &str) -> (r: bool)
    ensures
        r == pairs_map(new_values.deep_view()).dom().contains(key@),
{
    let ghost nv = new_values.deep_view();
    let mut i: usize = 0;
    while i < new_values.len()
        invariant
            0 <= i <= new_values.len(),
            nv == new_values.deep_view(),
            nv.len() == new_values.len(),
            forall|j: int| 0 <= j < i ==> (#[trigger] nv[j]).0 != key@,
        decreases new_values.len() - i,
    {
        proof {
            assert(nv[i as int] == (new_values@[i as int].0@, new_values@[i as int].1@));
        }
        if str_eq(new_values[i].0.as_str(), key) {
            proof {
                lemma_pairs_map_dom(nv, key@);
            }
            return true;
        }
        i += 1;
    }
    proof {
        lemma_pairs_map_dom(nv, key@);
    }
    false
}

/// Applies an update to a parsed document: drops entries the update
/// overwrites, then appends the new entries.
pub fn update_pairs(pairs: &Vec<(String, String)>, new_values: &Vec<(String, String)>) -> (r: Vec<
    (String, String),
>)
    ensures
        r.deep_view() == updated_pairs_spec(pairs.deep_view(), new_values.deep_view()),
{
    let ghost pv = pairs.deep_view();
    let ghost nv = new_values.deep_view();
    let ghost p = |q: (Seq<char>, Seq<char>)| !pairs_map(nv).dom().contains(q.0);
    let mut out: Vec<(String, String)> = Vec::new();
    let mut i: usize = 0;
    proof {
        assert(pv.skip(0) =~= pv);
        assert(out.deep_view() + filter_seq(pv, p) =~= filter_seq(pv, p));
    }
    while i < pairs.len()
        invariant
            0 <= i <= pairs.len(),
            pv == pairs.deep_view(),
            nv == new_values.deep_view(),
            pv.len() == pairs.len(),
            p == (|q: (Seq<char>, Seq<char>)| !pairs_map(nv).dom().contains(q.0)),
            out.deep_view() + filter_seq(pv.skip(i as int), p) == filter_seq(pv, p),
        decreases pairs.len() - i,
    {
        proof {
            assert(pv.skip(i as int)[0] == pv[i as int]);
            assert(pv.skip(i as int).skip(1) =~= pv.skip(i as int + 1));
            assert(pv[i as int] == (pairs@[i as int].0@, pairs@[i as int].1@));
        }
        let ghost prev = out.deep_view();
        if !pairs_have_key(new_values, pairs[i].0.as_str()) {
            out.push((pairs[i].0.clone(), pairs[i].1.clone()));
            proof {
                assert(out.deep_view() =~~= prev.push(pv[i as int]));
                assert(prev.push(pv[i as int]) + filter_seq(pv.skip(i as int + 1), p) =~= prev + (
                seq![pv[i as int]] + filter_seq(pv.skip(i as int + 1), p)));
            }
        }
        i += 1;
    }
    proof {
        assert(pv.skip(pv.len() as int) =~= Seq::<(Seq<char>, Seq<char>)>::empty());
        assert(filter_seq(pv.skip(pv.len() as int), p) =~= Seq::<(Seq<char>, Seq<char>)>::empty());
        assert(out.deep_view() + Seq::<(Seq<char>, Seq<char>)>::empty() =~= out.deep_view());
    }
    let mut j: usize = 0;
    let ghost kept = out.deep_view();
    while j < new_values.len()
        invariant
            0 <= j <= new_values.len(),
            nv == new_values.deep_view(),
            nv.len() == new_values.len(),
            out.deep_view() == kept + nv.take(j as int),
        decreases new_values.len() - j,
    {
        proof {
            assert(nv[j as int] == (new_values@[j as int].0@, new_values@[j as int].1@));
        }
        let ghost prev = out.deep_view();
        out.push((new_values[j].0.clone(), new_values[j].1.clone()));
        proof {
            assert(out.deep_view() =~~= prev.push(nv[j as int]));
            assert(prev.push(nv[j as int]) =~= kept + nv.take(j as int + 1));
        }
        j += 1;
    }
    proof {
        assert(nv.take(nv.len() as int) =~= nv);
        assert(out.deep_view() =~= updated_pairs_spec(pv, nv));
    }
    out
}

/// The rewritten config text: one `key: value` line per entry.
pub open spec fn emit_config_spec(d: Seq<(Seq<char>, Seq<char>)>) -> Seq<char> {
    join_sep_spec(
        d.map_values(|f: (Seq<char>, Seq<char>)| field_line_spec(f.0, f.1)),
        '\n',
    )
}

/// Serializes a config document back to text.
pub fn emit_config(pairs: &Vec<(String, String)>) -> (r: String)
    ensures
        r@ == emit_config_spec(pairs.deep_view()),
{
    let ghost dv = pairs.deep_view();
    let mut lines: Vec<String> = Vec::new();
    let mut i: usize = 0;
    proof {
        assert(lines.deep_view() =~~= dv.take(0).map_values(
            |f: (Seq<char>, Seq<char>)| field_line_spec(f.0, f.1),
        ));
    }
    while i < pairs.len()
        invariant
            0 <= i <= pairs.len(),
            dv == pairs.deep_view(),
            dv.len() == pairs.len(),
            lines.deep_view() == dv.take(i as int).map_values(
                |f: (Seq<char>, Seq<char>)| field_line_spec(f.0, f.1),
            ),
        decreases pairs.len() - i,
    {
        let mut line = pairs[i].0.clone();
        line.append(": ");
        line.append(pairs[i].1.as_str());
        proof {
            reveal_strlit(": ");
            assert(": "@ =~= seq![':', ' ']);
            assert(dv[i as int] == (pairs@[i as int].0@, pairs@[i as int].1@));
            assert(line@ =~= field_line_spec(dv[i as int].0, dv[i as int].1));
        }
        let ghost prev = lines.deep_view();
        lines.push(line);
        proof {
            assert(lines.deep_view() =~~= prev.push(line@));
            assert(prev.push(line@) =~= dv.take(i as int + 1).map_values(
                |f: (Seq<char>, Seq<char>)| field_line_spec(f.0, f.1),
            ));
        }
        i += 1;
    }
    proof {
        assert(dv.take(dv.len() as int) =~= dv);
        reveal_strlit("\n");
        assert("\n"@ =~= seq!['\n']);
    }
    join_sep(&lines, '\n', "\n")
}

/// Performs a whole update: parses the existing text (an unparseable one
/// counts as empty), lays the new values over it, and renders the full
/// replacement text for the truncate-and-rewrite step.
pub fn update_config(config_text: &str, new_values: &Vec<(String, String)>) -> (r: String)
    ensures
        r@ == emit_config_spec(
            updated_pairs_spec(config_scalars_of(config_text@), new_values.deep_view()),
        ),
{
    let pairs = parse_config_scalars(config_text);
    let updated = update_pairs(&pairs, new_values);
    emit_config(&updated)
}

} // verus!
