//! Scoped constants: an insertion-ordered map from names to values, with
//! override-merging across scopes and `{{name}}` placeholder substitution.

use vstd::prelude::*;
use vstd::pervasive::VecAdditionalExecFns;
use vstd::string::StringExecFns;
use crate::config::{CollectionConfig, Config, TargetConfig};
use crate::errors::Error;
use crate::text::{contains_seq, replace_all, replace_seq, lemma_replace_absent, str_eq};

verus! {

/// The mapping described by a sequence of entries: later entries override
/// earlier ones.
pub open spec fn entries_to_map(es: Seq<(Seq<char>, Seq<char>)>) -> Map<Seq<char>, Seq<char>>
    decreases es.len(),
{
    if es.len() == 0 {
        Map::empty()
    } else {
        entries_to_map(es.drop_last()).insert(es.last().0, es.last().1)
    }
}

/// `es` with the value at `key` overwritten in place, or a new entry at
/// the end when the key is absent.
pub open spec fn update_or_push(
    es: Seq<(Seq<char>, Seq<char>)>,
    key: Seq<char>,
    value: Seq<char>,
) -> Seq<(Seq<char>, Seq<char>)>
    decreases es.len(),
{
    if es.len() == 0 {
        seq![(key, value)]
    } else if es[0].0 == key {
        seq![(key, value)] + es.skip(1)
    } else {
        seq![es[0]] + update_or_push(es.skip(1), key, value)
    }
}

/// Named string constants, kept in insertion order so that placeholder
/// substitution visits them deterministically. Inserting an existing key
/// overwrites its value in place.
#[derive(Debug)]
pub struct ConstMap {
    entries: Vec<(String, String)>,
}

impl ConstMap {
    /// The entries in insertion order, as views.
    pub closed spec fn entry_seq(self) -> Seq<(Seq<char>, Seq<char>)> {
        Seq::new(self.entries@.len(), |i: int| (self.entries@[i].0@, self.entries@[i].1@))
    }

    /// The mapping the entries describe.
    pub open spec fn as_map(self) -> Map<Seq<char>, Seq<char>> {
        entries_to_map(self.entry_seq())
    }

    /// Keys occur at most once among the entries.
    pub closed spec fn wf(self) -> bool {
        forall|i: int, j: int|
            0 <= i < j < self.entry_seq().len() ==> self.entry_seq()[i].0 != self.entry_seq()[j].0
    }

    pub fn new() -> (r: ConstMap)
        ensures
            r.wf(),
            r.as_map() == Map::<Seq<char>, Seq<char>>::empty(),
            r.entry_seq() == Seq::<(Seq<char>, Seq<char>)>::empty(),
    {
        let r = ConstMap { entries: Vec::new() };
        proof {
            assert(r.entry_seq() =~= Seq::<(Seq<char>, Seq<char>)>::empty());
        }
        r
    }

    /// Insert a constant; an existing key keeps its position and takes the
    /// new value.
    #[verifier::loop_isolation(false)]
    pub fn insert(&mut self, key: String, value: String)
        requires
            old(self).wf(),
        ensures
            final(self).wf(),
            final(self).as_map() == old(self).as_map().insert(key@, value@),
            final(self).entry_seq() == update_or_push(old(self).entry_seq(), key@, value@),
    {
        let ghost es0 = self.entry_seq();
        let n = self.entries.len();
        let mut i: usize = 0;
        while i < n
            invariant
                n == self.entries.len(),
                0 <= i <= n,
                self.wf(),
                es0 == self.entry_seq(),
                forall|k: int| 0 <= k < i ==> self.entry_seq()[k].0 != key@,
            decreases n - i,
        {
            if str_eq(self.entries[i].0.as_str(), key.as_str()) {
                proof {
                    assert(self.entry_seq()[i as int].0 == key@);
                }
                let ghost idx = i as int;
                self.entries.set(i, (key, value));
                proof {
                    assert(self.entry_seq() =~= es0.update(idx, (es0[idx].0, value@)));
                    lemma_entries_to_map_update(es0, idx, value@);
                    lemma_update_or_push_found(es0, idx, key@, value@);
                    assert(self.wf());
                }
                return ;
            }
            i = i + 1;
        }
        self.entries.push((key, value));
        proof {
            assert(self.entry_seq() =~= es0.push((key@, value@)));
            assert(self.entry_seq().drop_last() =~= es0);
            lemma_update_or_push_absent(es0, key@, value@);
            assert(self.wf());
        }
    }

    /// Look a constant up by name.
    pub fn get(&self, key: &str) -> (r: Option<&String>)
        requires
            self.wf(),
        ensures
            match r {
                Some(v) => self.as_map().contains_key(key@) && self.as_map()[key@] == v@,
                None => !self.as_map().contains_key(key@),
            },
    {
        let n = self.entries.len();
        let mut i: usize = 0;
        while i < n
            invariant
                n == self.entries.len(),
                0 <= i <= n,
                self.wf(),
                forall|k: int| 0 <= k < i ==> self.entry_seq()[k].0 != key@,
            decreases n - i,
        {
            if str_eq(self.entries[i].0.as_str(), key) {
                proof {
                    assert(self.entry_seq()[i as int].0 == key@);
                    lemma_entries_to_map_found(self.entry_seq(), i as int);
                }
                return Some(&self.entries[i].1);
            }
            i = i + 1;
        }
        proof {
            lemma_entries_to_map_absent(self.entry_seq(), key@);
        }
        None
    }

    /// The keys and the values of the entries, in entry order,
    /// index-aligned.
    pub fn keys_and_values(&self) -> (r: (Vec<String>, Vec<String>))
        ensures
            r.0.deep_view() == entry_keys(self.entry_seq()),
            r.1.deep_view() == entry_values(self.entry_seq()),
    {
        let mut keys: Vec<String> = Vec::new();
        let mut values: Vec<String> = Vec::new();
        let n = self.entries.len();
        let mut i: usize = 0;
        proof {
            assert(keys.deep_view() =~= entry_keys(self.entry_seq()).subrange(0, 0));
            assert(values.deep_view() =~= entry_values(self.entry_seq()).subrange(0, 0));
        }
        while i < n
            invariant
                n == self.entries.len(),
                0 <= i <= n,
                keys.deep_view() == entry_keys(self.entry_seq()).subrange(0, i as int),
                values.deep_view() == entry_values(self.entry_seq()).subrange(0, i as int),
            decreases n - i,
        {
            let ghost k0 = keys.deep_view();
            let ghost v0 = values.deep_view();
            keys.push(self.entries[i].0.clone());
            values.push(self.entries[i].1.clone());
            i = i + 1;
            proof {
                let ks = entry_keys(self.entry_seq());
                let vs = entry_values(self.entry_seq());
                assert(keys.deep_view() =~= k0.push(ks[i - 1]));
                assert(values.deep_view() =~= v0.push(vs[i - 1]));
                assert(ks.subrange(0, i as int) =~= ks.subrange(0, i - 1).push(ks[i - 1]));
                assert(vs.subrange(0, i as int) =~= vs.subrange(0, i - 1).push(vs[i - 1]));
            }
        }
        proof {
            assert(entry_keys(self.entry_seq()).subrange(0, n as int) =~= entry_keys(
                self.entry_seq(),
            ));
            assert(entry_values(self.entry_seq()).subrange(0, n as int) =~= entry_values(
                self.entry_seq(),
            ));
        }
        (keys, values)
    }

    /// The number of entries.
    pub fn len(&self) -> (n: usize)
        ensures
            n == self.entry_seq().len(),
    {
        self.entries.len()
    }
}

/// Updating the value at a key's unique position updates the mapping at
/// that key and nothing else.
proof fn lemma_entries_to_map_update(es: Seq<(Seq<char>, Seq<char>)>, i: int, v: Seq<char>)
    requires
        0 <= i < es.len(),
        forall|j: int, k: int| 0 <= j < k < es.len() ==> es[j].0 != es[k].0,
    ensures
        entries_to_map(es.update(i, (es[i].0, v))) == entries_to_map(es).insert(es[i].0, v),
    decreases es.len(),
{
    let es2 = es.update(i, (es[i].0, v));
    if i == es.len() - 1 {
        assert(es2.drop_last() =~= es.drop_last());
        assert(es2.last() == (es[i].0, v));
        assert(entries_to_map(es.drop_last()).insert(es[i].0, v) =~= entries_to_map(
            es,
        ).insert(es[i].0, v));
    } else {
        assert(es2.drop_last() =~= es.drop_last().update(i, (es[i].0, v)));
        assert(es2.last() == es.last());
        assert(es.drop_last()[i] == es[i]);
        lemma_entries_to_map_update(es.drop_last(), i, v);
        assert(es[i].0 != es.last().0);
        assert(entries_to_map(es.drop_last()).insert(es[i].0, v).insert(es.last().0, es.last().1)
            =~= entries_to_map(es.drop_last()).insert(es.last().0, es.last().1).insert(es[i].0, v));
    }
}

/// An entry whose key occurs nowhere later gives the mapping's value at
/// that key.
proof fn lemma_entries_to_map_found(es: Seq<(Seq<char>, Seq<char>)>, i: int)
    requires
        0 <= i < es.len(),
        forall|j: int| i < j < es.len() ==> es[j].0 != es[i].0,
    ensures
        entries_to_map(es).contains_key(es[i].0),
        entries_to_map(es)[es[i].0] == es[i].1,
    decreases es.len(),
{
    if i < es.len() - 1 {
        assert(es.drop_last()[i] == es[i]);
        lemma_entries_to_map_found(es.drop_last(), i);
    }
}

/// A key no entry carries is not in the mapping.
proof fn lemma_entries_to_map_absent(es: Seq<(Seq<char>, Seq<char>)>, key: Seq<char>)
    requires
        forall|j: int| 0 <= j < es.len() ==> es[j].0 != key,
    ensures
        !entries_to_map(es).contains_key(key),
    decreases es.len(),
{
    if es.len() > 0 {
        lemma_entries_to_map_absent(es.drop_last(), key);
    }
}

/// Overwriting the value at the key's unique position is what
/// `update_or_push` does when the key is present.
proof fn lemma_update_or_push_found(
    es: Seq<(Seq<char>, Seq<char>)>,
    i: int,
    key: Seq<char>,
    value: Seq<char>,
)
    requires
        0 <= i < es.len(),
        es[i].0 == key,
        forall|k: int| 0 <= k < i ==> es[k].0 != key,
    ensures
        update_or_push(es, key, value) == es.update(i, (key, value)),
    decreases es.len(),
{
    if i == 0 {
        assert(update_or_push(es, key, value) =~= es.update(0, (key, value)));
    } else {
        assert(es.skip(1)[i - 1] == es[i]);
        assert(forall|k: int| 0 <= k < i - 1 ==> es.skip(1)[k] == es[k + 1]);
        lemma_update_or_push_found(es.skip(1), i - 1, key, value);
        assert(seq![es[0]] + es.skip(1).update(i - 1, (key, value)) =~= es.update(
            i,
            (key, value),
        ));
    }
}

/// Appending at the end is what `update_or_push` does when the key is
/// absent.
proof fn lemma_update_or_push_absent(es: Seq<(Seq<char>, Seq<char>)>, key: Seq<char>, value: Seq<char>)
    requires
        forall|k: int| 0 <= k < es.len() ==> es[k].0 != key,
    ensures
        update_or_push(es, key, value) == es.push((key, value)),
    decreases es.len(),
{
    if es.len() == 0 {
        assert(update_or_push(es, key, value) =~= es.push((key, value)));
    } else {
        lemma_update_or_push_absent(es.skip(1), key, value);
        assert(seq![es[0]] + es.skip(1).push((key, value)) =~= es.push((key, value)));
    }
}

/// The keys of a sequence of entries, in order.
pub open spec fn entry_keys(es: Seq<(Seq<char>, Seq<char>)>) -> Seq<Seq<char>> {
    Seq::new(es.len(), |i: int| es[i].0)
}

/// The values of a sequence of entries, in order.
pub open spec fn entry_values(es: Seq<(Seq<char>, Seq<char>)>) -> Seq<Seq<char>> {
    Seq::new(es.len(), |i: int| es[i].1)
}

/// A well-formed constant map carries each key at most once.
pub proof fn lemma_wf_keys_distinct(m: ConstMap)
    requires
        m.wf(),
    ensures
        forall|i: int, j: int|
            0 <= i < j < m.entry_seq().len() ==> m.entry_seq()[i].0 != m.entry_seq()[j].0,
{
}

/// The placeholder text that stands for the constant named `k`.
pub open spec fn placeholder(k: Seq<char>) -> Seq<char> {
    seq!['{', '{'] + k + seq!['}', '}']
}

/// `text` with every constant's placeholder replaced by its value, one
/// pass per entry, in entry order.
pub open spec fn apply_entries(text: Seq<char>, es: Seq<(Seq<char>, Seq<char>)>) -> Seq<char>
    decreases es.len(),
{
    if es.len() == 0 {
        text
    } else {
        apply_entries(replace_seq(text, placeholder(es[0].0), es[0].1), es.skip(1))
    }
}

/// The placeholder `{{key}}` built as a string.
pub fn make_placeholder(key: &str) -> (r: String)
    ensures
        r@ == placeholder(key@),
{
    proof {
        reveal_strlit("{{");
        reveal_strlit("}}");
    }
    let mut r = String::from_str("{{");
    r.append(key);
    r.append("}}");
    proof {
        assert(r@ =~= placeholder(key@));
    }
    r
}

/// Replace every `{{name}}` placeholder of a known constant in `text` by
/// the constant's value: one pass for each entry, in entry order, so a
/// value never has its own placeholders substituted in turn.
pub fn apply_template(text: &str, consts: &ConstMap) -> (r: String)
    ensures
        r@ == apply_entries(text@, consts.entry_seq()),
{
    let ghost es = consts.entry_seq();
    let n = consts.len();
    let mut cur = text.to_owned();
    let mut i: usize = 0;
    proof {
        assert(es.skip(0) =~= es);
    }
    while i < n
        invariant
            n == es.len(),
            es == consts.entry_seq(),
            0 <= i <= n,
            apply_entries(cur@, es.skip(i as int)) == apply_entries(text@, es),
        decreases n - i,
    {
        let pat = make_placeholder(consts.entries[i].0.as_str());
        cur = replace_all(cur.as_str(), pat.as_str(), consts.entries[i].1.as_str());
        i = i + 1;
        proof {
            assert(es.skip(i - 1)[0] == es[i - 1]);
            assert(es.skip(i - 1).skip(1) =~= es.skip(i as int));
        }
    }
    proof {
        assert(es.skip(n as int) =~= Seq::<(Seq<char>, Seq<char>)>::empty());
    }
    cur
}

/// A text in which no entry's placeholder occurs is a fixed point of
/// substitution.
pub proof fn lemma_apply_entries_fixed_point(text: Seq<char>, es: Seq<(Seq<char>, Seq<char>)>)
    requires
        forall|j: int| 0 <= j < es.len() ==> !contains_seq(text, placeholder(#[trigger] es[j].0)),
    ensures
        apply_entries(text, es) == text,
    decreases es.len(),
{
    if es.len() > 0 {
        lemma_replace_absent(text, placeholder(es[0].0), es[0].1);
        assert(forall|j: int|
            0 <= j < es.skip(1).len() ==> es.skip(1)[j] == es[j + 1]);
        lemma_apply_entries_fixed_point(text, es.skip(1));
    }
}

/// The mapping of an optional constant scope; an absent scope maps
/// nothing.
pub open spec fn opt_consts_map(o: Option<ConstMap>) -> Map<Seq<char>, Seq<char>> {
    match o {
        None => Map::empty(),
        Some(m) => m.as_map(),
    }
}

/// An optional constant scope is well formed when present.
pub open spec fn opt_consts_wf(o: Option<ConstMap>) -> bool {
    match o {
        None => true,
        Some(m) => m.wf(),
    }
}

/// Insert every entry of `add` into `consts`, in entry order, so that
/// `add`'s values override what `consts` already had.
fn insert_all(consts: &mut ConstMap, add: &ConstMap)
    requires
        old(consts).wf(),
        add.wf(),
    ensures
        final(consts).wf(),
        final(consts).as_map() == old(consts).as_map().union_prefer_right(add.as_map()),
{
    let ghost m0 = consts.as_map();
    let ghost es = add.entry_seq();
    let n = add.entries.len();
    let mut i: usize = 0;
    proof {
        assert(entries_to_map(es.subrange(0, 0)) =~= Map::<Seq<char>, Seq<char>>::empty());
        assert(m0.union_prefer_right(Map::empty()) =~= m0);
    }
    while i < n
        invariant
            n == es.len(),
            es == add.entry_seq(),
            0 <= i <= n,
            consts.wf(),
            consts.as_map() == m0.union_prefer_right(entries_to_map(es.subrange(0, i as int))),
        decreases n - i,
    {
        consts.insert(add.entries[i].0.clone(), add.entries[i].1.clone());
        i = i + 1;
        proof {
            let prefix = es.subrange(0, i as int);
            assert(prefix.drop_last() =~= es.subrange(0, i - 1));
            assert(prefix.last() == es[i - 1]);
            assert(m0.union_prefer_right(entries_to_map(es.subrange(0, i - 1))).insert(
                es[i - 1].0,
                es[i - 1].1,
            ) =~= m0.union_prefer_right(entries_to_map(prefix)));
        }
    }
    proof {
        assert(es.subrange(0, n as int) =~= es);
    }
}

/// Merge the constants in scope at a target: the collection's first, then
/// the target's own, later entries overriding earlier ones.
pub fn build_consts(config: &CollectionConfig, target_config: &TargetConfig) -> (r: ConstMap)
    requires
        opt_consts_wf(config.consts),
        opt_consts_wf(target_config.consts),
    ensures
        r.wf(),
        r.as_map() == opt_consts_map(config.consts).union_prefer_right(
            opt_consts_map(target_config.consts),
        ),
{
    let mut consts = ConstMap::new();
    match &config.consts {
        None => {
            proof {
                assert(consts.as_map() =~= opt_consts_map(config.consts));
            }
        },
        Some(m) => {
            insert_all(&mut consts, m);
            proof {
                assert(Map::<Seq<char>, Seq<char>>::empty().union_prefer_right(m.as_map())
                    =~= m.as_map());
            }
        },
    }
    match &target_config.consts {
        None => {
            proof {
                assert(consts.as_map().union_prefer_right(
                    opt_consts_map(target_config.consts),
                ) =~= consts.as_map());
            }
        },
        Some(m) => {
            insert_all(&mut consts, m);
        },
    }
    consts
}

/// Merge every constant scope a target sees: the global scope first, then
/// the collection's, then the target's own, later scopes overriding
/// earlier ones.
pub fn build_all_consts(config: &Config, collection: &CollectionConfig, target: &TargetConfig) -> (r:
    ConstMap)
    requires
        opt_consts_wf(config.consts),
        opt_consts_wf(collection.consts),
        opt_consts_wf(target.consts),
    ensures
        r.wf(),
        r.as_map() == opt_consts_map(config.consts).union_prefer_right(
            opt_consts_map(collection.consts),
        ).union_prefer_right(opt_consts_map(target.consts)),
{
    let mut consts = ConstMap::new();
    match &config.consts {
        None => {
            proof {
                assert(consts.as_map() =~= opt_consts_map(config.consts));
            }
        },
        Some(m) => {
            insert_all(&mut consts, m);
            proof {
                assert(Map::<Seq<char>, Seq<char>>::empty().union_prefer_right(m.as_map())
                    =~= m.as_map());
            }
        },
    }
    match &collection.consts {
        None => {
            proof {
                assert(consts.as_map().union_prefer_right(opt_consts_map(collection.consts))
                    =~= consts.as_map());
            }
        },
        Some(m) => {
            insert_all(&mut consts, m);
        },
    }
    match &target.consts {
        None => {
            proof {
                assert(consts.as_map().union_prefer_right(opt_consts_map(target.consts))
                    =~= consts.as_map());
            }
        },
        Some(m) => {
            insert_all(&mut consts, m);
        },
    }
    consts
}

/// Constant merging is override-total: a key of the more specific scope
/// takes its value from there; a key only of the less specific scope stays
/// visible; no other key appears.
pub proof fn lemma_merge_override_total(c: Map<Seq<char>, Seq<char>>, t: Map<Seq<char>, Seq<char>>)
    ensures
        forall|k: Seq<char>| #[trigger] t.contains_key(k) ==> c.union_prefer_right(t).contains_key(k)
            && c.union_prefer_right(t)[k] == t[k],
        forall|k: Seq<char>| #[trigger] c.contains_key(k) && !t.contains_key(k)
            ==> c.union_prefer_right(t).contains_key(k) && c.union_prefer_right(t)[k] == c[k],
        forall|k: Seq<char>| #[trigger] c.union_prefer_right(t).contains_key(k) ==> c.contains_key(k)
            || t.contains_key(k),
{
}

/// Whether shell-style expansion is sure to leave `s` alone: no variable
/// reference anywhere and no leading tilde.
pub open spec fn expansion_inert(s: Seq<char>) -> bool {
    !s.contains('$') && !(s.len() > 0 && s[0] == '~')
}

/// Relies on shellexpand::full: `$VAR`/`${VAR}` expansion over the
/// process environment, then `~` expansion over the home directory. A
/// text holding no `$` and not starting with `~` comes back unchanged and
/// never fails; everything else depends on the environment, so nothing
/// more is promised of it.
#[verifier::external_body]
fn shell_expand(s: &str) -> (r: Option<String>)
    ensures
        match r {
            Some(e) => expansion_inert(s@) ==> e@ == s@,
            None => !expansion_inert(s@),
        },
{
    match shellexpand::full(s) {
        Ok(expanded) => Some(expanded.into_owned()),
        Err(_) => None,
    }
}

/// Substitute every known constant's placeholder into `string`, then
/// apply shell-style expansion to the result. Expansion failure (an
/// undefined variable) is fatal. On a result expansion cannot touch, the
/// substituted text itself is returned.
pub fn replace_consts(string: &str, consts: &ConstMap) -> (r: Result<String, Error>)
    ensures
        ({
            let substituted = apply_entries(string@, consts.entry_seq());
            match r {
                Ok(e) => expansion_inert(substituted) ==> e@ == substituted,
                Err(Error::ExpansionFailed { text }) => text@ == substituted && !expansion_inert(
                    substituted,
                ),
                Err(_) => false,
            }
        }),
{
    let cmd = apply_template(string, consts);
    let has_dollar = crate::text::contains_char(cmd.as_str(), '$');
    let starts_tilde = crate::text::starts_with_char(cmd.as_str(), '~');
    match shell_expand(cmd.as_str()) {
        Some(expanded) => Ok(expanded),
        None => {
            if !has_dollar && !starts_tilde {
                proof {
                    assert(false);
                }
            }
            Err(Error::ExpansionFailed { text: cmd })
        },
    }
}

/// Substitution is idempotent once its result holds no further
/// placeholder of the constants: a second pass returns it unchanged.
pub proof fn lemma_apply_template_idempotent(text: Seq<char>, es: Seq<(Seq<char>, Seq<char>)>)
    requires
        forall|j: int|
            0 <= j < es.len() ==> !contains_seq(
                apply_entries(text, es),
                placeholder(#[trigger] es[j].0),
            ),
    ensures
        apply_entries(apply_entries(text, es), es) == apply_entries(text, es),
{
    lemma_apply_entries_fixed_point(apply_entries(text, es), es);
}

} // verus!
