use vstd::prelude::*;

use crate::output::RenderError;

verus! {

/// The view of one stored entry: a name and its value.
pub open spec fn pair_view(e: (String, String)) -> (Seq<char>, Seq<char>) {
    (e.0@, e.1@)
}

/// No two entries of `s` share a name.
pub open spec fn names_unique(s: Seq<(Seq<char>, Seq<char>)>) -> bool {
    forall|i: int, j: int| 0 <= i < j < s.len() ==> s[i].0 != s[j].0
}

/// Some entry of `s` is named `k`.
pub open spec fn has_name(s: Seq<(Seq<char>, Seq<char>)>, k: Seq<char>) -> bool {
    exists|i: int| 0 <= i < s.len() && s[i].0 == k
}

/// The mapping from name to value that a list of entries stands for.
pub open spec fn pairs_map(s: Seq<(Seq<char>, Seq<char>)>) -> Map<Seq<char>, Seq<char>> {
    Map::new(
        |k: Seq<char>| has_name(s, k),
        |k: Seq<char>| s[choose|i: int| 0 <= i < s.len() && s[i].0 == k].1,
    )
}

/// With unique names, the entry at `i` is what the map holds for its name.
pub proof fn lemma_pairs_map_at(s: Seq<(Seq<char>, Seq<char>)>, i: int)
    requires
        names_unique(s),
        0 <= i < s.len(),
    ensures
        pairs_map(s).contains_key(s[i].0),
        pairs_map(s)[s[i].0] == s[i].1,
{
    let k = s[i].0;
    assert(has_name(s, k));
    let j = choose|j: int| 0 <= j < s.len() && s[j].0 == k;
    assert(j == i);
}

/// With unique names, the map has one key per entry.
pub proof fn lemma_pairs_map_len(s: Seq<(Seq<char>, Seq<char>)>)
    requires
        names_unique(s),
    ensures
        pairs_map(s).dom() == s.map_values(|e: (Seq<char>, Seq<char>)| e.0).to_set(),
        pairs_map(s).dom().len() == s.len(),
{
    let ks = s.map_values(|e: (Seq<char>, Seq<char>)| e.0);
    assert forall|k: Seq<char>| pairs_map(s).dom().contains(k) <==> ks.to_set().contains(k) by {
        if has_name(s, k) {
            let i = choose|i: int| 0 <= i < s.len() && s[i].0 == k;
            assert(ks[i] == k);
        }
        if ks.to_set().contains(k) {
            let i = choose|i: int| 0 <= i < ks.len() && ks[i] == k;
            assert(s[i].0 == k);
        }
    }
    assert(pairs_map(s).dom() =~= ks.to_set());
    assert(ks.no_duplicates()) by {
        assert forall|i: int, j: int| 0 <= i < ks.len() && 0 <= j < ks.len() && i != j
            implies ks[i] != ks[j] by {
        }
    }
    ks.unique_seq_to_set();
}

/// Storing `(k, v)` at position `at`, over the entry named `k` there or
/// appended after the last entry when no entry is named `k`, keeps the names
/// unique and stores `v` under `k` in the map.
pub proof fn lemma_pairs_map_store(
    before: Seq<(Seq<char>, Seq<char>)>,
    after: Seq<(Seq<char>, Seq<char>)>,
    at: int,
    k: Seq<char>,
    v: Seq<char>,
)
    requires
        names_unique(before),
        0 <= at <= before.len(),
        forall|j: int| 0 <= j < at ==> before[j].0 != k,
        at < before.len() ==> before[at].0 == k && after == before.update(at, (k, v)),
        at == before.len() ==> after == before.push((k, v)),
    ensures
        names_unique(after),
        pairs_map(after) == pairs_map(before).insert(k, v),
{
    assert(names_unique(after));
    assert forall|q: Seq<char>|
        #![auto]
        pairs_map(after).contains_key(q) <==> pairs_map(before).insert(k, v).contains_key(q) by {
        if has_name(before, q) {
            let j = choose|j: int| 0 <= j < before.len() && before[j].0 == q;
            assert(after[j].0 == q);
        }
        if has_name(after, q) && q != k {
            let j = choose|j: int| 0 <= j < after.len() && after[j].0 == q;
            assert(before[j].0 == q);
        }
        if q == k {
            assert(after[at].0 == q);
        }
    }
    assert forall|q: Seq<char>| #[trigger]
        pairs_map(after).contains_key(q) implies pairs_map(after)[q] == pairs_map(before).insert(
        k,
        v,
    )[q] by {
        let j = choose|j: int| 0 <= j < after.len() && after[j].0 == q;
        lemma_pairs_map_at(after, j);
        if j != at {
            lemma_pairs_map_at(before, j);
        }
    }
    assert(pairs_map(after) =~= pairs_map(before).insert(k, v));
}

#[verifier::external_type_specification]
#[verifier::external_body]
pub struct ExJsonError(serde_json::Error);

/// The pretty-printed JSON text of an object mapping each name to its value.
pub uninterp spec fn pretty_json_of(m: Map<Seq<char>, Seq<char>>) -> Seq<char>;

/// Relies on serde_json::to_string_pretty: an ordered map of strings to
/// strings is written as one JSON object, its keys in sorted order, so the
/// text depends on the mapping alone. It fails only on a failing `Serialize`
/// impl or a non-string map key, neither of which a map of strings has.
#[verifier::external_body]
fn json_pretty(entries: &Vec<(String, String)>) -> (r: Result<String, serde_json::Error>)
    requires
        names_unique(entries@.map_values(|e: (String, String)| pair_view(e))),
    ensures
        r is Ok,
        r matches Ok(t) ==> t@ == pretty_json_of(
            pairs_map(entries@.map_values(|e: (String, String)| pair_view(e))),
        ),
{
    let m: std::collections::BTreeMap<&String, &String> = entries.iter().map(|e| (&e.0, &e.1)).collect();
    serde_json::to_string_pretty(&m)
}

/// The secrets fetched so far: one value for each distinct name.
pub struct SecretsMap {
    entries: Vec<(String, String)>,
}

impl SecretsMap {
    /// The entries in their stored order.
    pub closed spec fn pairs(&self) -> Seq<(Seq<char>, Seq<char>)> {
        self.entries@.map_values(|e: (String, String)| pair_view(e))
    }

    pub closed spec fn view(&self) -> Map<Seq<char>, Seq<char>> {
        pairs_map(self.pairs())
    }

    /// Each name is stored once.
    pub closed spec fn wf(&self) -> bool {
        names_unique(self.pairs())
    }

    pub fn new() -> (r: SecretsMap)
        ensures
            r.wf(),
            r@ == Map::<Seq<char>, Seq<char>>::empty(),
            r.pairs().len() == 0,
    {
        let r = SecretsMap { entries: Vec::new() };
        assert(r@ =~= Map::<Seq<char>, Seq<char>>::empty());
        r
    }

    /// Stores `value` under `name`, replacing what an earlier insert of the
    /// same name stored.
    pub fn insert(&mut self, name: String, value: String)
        requires
            old(self).wf(),
        ensures
            final(self).wf(),
            final(self)@ == old(self)@.insert(name@, value@),
    {
        let ghost before = self.pairs();
        let ghost nv = name@;
        let ghost vv = value@;
        let n = self.entries.len();
        let mut i: usize = 0;
        while i < n
            invariant
                n == self.entries.len(),
                self.pairs() == before,
                before == old(self).pairs(),
                nv == name@,
                vv == value@,
                names_unique(before),
                i <= n,
                forall|j: int| 0 <= j < i ==> before[j].0 != nv,
            decreases n - i,
        {
            if self.entries[i].0 == name {
                assert(before[i as int].0 == nv);
                self.entries[i] = (name, value);
                proof {
                    assert(self.pairs() =~= before.update(i as int, (nv, vv)));
                    lemma_pairs_map_store(before, self.pairs(), i as int, nv, vv);
                }
                return;
            }
            i = i + 1;
        }
        self.entries.push((name, value));
        proof {
            assert(self.pairs() =~= before.push((nv, vv)));
            lemma_pairs_map_store(before, self.pairs(), n as int, nv, vv);
        }
    }

    /// The stored values, one line each, in the stored order of the entries:
    /// as many lines as there are names, each the value of one name.
    pub fn value_lines(&self) -> (r: Vec<String>)
        requires
            self.wf(),
        ensures
            r@.len() == self.pairs().len(),
            r@.len() == self@.dom().len(),
            self@.dom() == self.pairs().map_values(|e: (Seq<char>, Seq<char>)| e.0).to_set(),
            forall|i: int|
                0 <= i < r@.len() ==> #[trigger] r@[i]@ == self.pairs()[i].1 && self@[self.pairs()[i].0]
                    == r@[i]@,
    {
        let mut r: Vec<String> = Vec::new();
        let mut i: usize = 0;
        while i < self.entries.len()
            invariant
                self.wf(),
                i <= self.entries.len(),
                r@.len() == i,
                forall|j: int| 0 <= j < i ==> #[trigger] r@[j]@ == self.pairs()[j].1,
            decreases self.entries.len() - i,
        {
            r.push(self.entries[i].1.clone());
            i = i + 1;
        }
        proof {
            lemma_pairs_map_len(self.pairs());
            assert forall|i: int| 0 <= i < r@.len() implies #[trigger] r@[i]@ == self.pairs()[i].1
                && self@[self.pairs()[i].0] == r@[i]@ by {
                lemma_pairs_map_at(self.pairs(), i);
            }
        }
        r
    }

    /// The secrets as a pretty-printed JSON object.
    pub fn to_json(&self) -> (r: Result<String, RenderError>)
        requires
            self.wf(),
        ensures
            r is Ok,
            r matches Ok(t) ==> t@ == pretty_json_of(self@),
    {
        match json_pretty(&self.entries) {
            Ok(t) => Ok(t),
            Err(_) => Err(RenderError::Json),
        }
    }

    /// The value stored under `name`, if any.
    pub fn get(&self, name: &String) -> (r: Option<String>)
        requires
            self.wf(),
        ensures
            r is Some <==> self@.contains_key(name@),
            r matches Some(v) ==> v@ == self@[name@],
    {
        let mut i: usize = 0;
        while i < self.entries.len()
            invariant
                self.wf(),
                i <= self.entries.len(),
                forall|j: int| 0 <= j < i ==> self.pairs()[j].0 != name@,
            decreases self.entries.len() - i,
        {
            if self.entries[i].0.eq(name) {
                proof {
                    lemma_pairs_map_at(self.pairs(), i as int);
                }
                return Some(self.entries[i].1.clone());
            }
            i = i + 1;
        }
        None
    }

    /// The number of distinct names stored.
    pub fn len(&self) -> (r: usize)
        requires
            self.wf(),
        ensures
            r == self@.dom().len(),
    {
        proof {
            lemma_pairs_map_len(self.pairs());
        }
        self.entries.len()
    }
}

} // verus!
