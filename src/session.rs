use vstd::prelude::*;

use crate::output::output_spec;
use crate::secrets::SecretsMap;

verus! {

/// The views of a list of names.
pub open spec fn names_view(v: Seq<String>) -> Seq<Seq<char>> {
    v.map_values(|s: String| s@)
}

/// The map that results from storing `values[i]` under `names[i]` for each
/// fetched position `i`, in order, a later name replacing an earlier one.
pub open spec fn collected(names: Seq<Seq<char>>, values: Seq<Seq<char>>) -> Map<
    Seq<char>,
    Seq<char>,
>
    decreases values.len(),
{
    if values.len() == 0 {
        Map::empty()
    } else {
        let n = values.len() - 1;
        collected(names, values.drop_last()).insert(names[n], values[n])
    }
}

/// What the collected map holds: every fetched name, and for each the value
/// fetched at its last position.
pub proof fn lemma_collected_entries(names: Seq<Seq<char>>, values: Seq<Seq<char>>)
    requires
        values.len() <= names.len(),
    ensures
        collected(names, values).dom() == names.take(values.len() as int).to_set(),
        forall|i: int|
            0 <= i < values.len() && (forall|j: int|
                i < j < values.len() ==> names[j] != names[i]) ==> #[trigger] collected(
                names,
                values,
            )[names[i]] == values[i],
    decreases values.len(),
{
    if values.len() > 0 {
        let n = values.len() - 1;
        lemma_collected_entries(names, values.drop_last());
        let pre = names.take(n);
        let cur = names.take(values.len() as int);
        assert(cur =~= pre.push(names[n]));
        assert forall|k: Seq<char>| cur.to_set().contains(k) <==> pre.to_set().insert(
            names[n],
        ).contains(k) by {
            if cur.contains(k) {
                let i = choose|i: int| 0 <= i < cur.len() && cur[i] == k;
                if i < n {
                    assert(pre[i] == k);
                }
            }
            if pre.contains(k) {
                let i = choose|i: int| 0 <= i < pre.len() && pre[i] == k;
                assert(cur[i] == k);
            }
            if k == names[n] {
                assert(cur[n] == k);
            }
        }
        assert(cur.to_set() =~= pre.to_set().insert(names[n]));
        assert(collected(names, values).dom() =~= names.take(values.len() as int).to_set());
        assert forall|i: int|
            0 <= i < values.len() && (forall|j: int|
                i < j < values.len() ==> names[j] != names[i]) implies #[trigger] collected(
            names,
            values,
        )[names[i]] == values[i] by {
            if i < n {
                assert(names[n] != names[i]);
                assert(values.drop_last()[i] == values[i]);
            }
        }
    }
}

/// When every requested name is fetched and no name repeats, the result
/// holds exactly one entry per requested name, with the value fetched for it.
pub proof fn lemma_distinct_names_all_present(names: Seq<Seq<char>>, values: Seq<Seq<char>>)
    requires
        values.len() == names.len(),
        names.no_duplicates(),
    ensures
        collected(names, values).dom() == names.to_set(),
        collected(names, values).dom().len() == names.len(),
        forall|i: int| 0 <= i < names.len() ==> #[trigger] collected(names, values)[names[i]] == values[i],
{
    lemma_collected_entries(names, values);
    assert(names.take(values.len() as int) =~= names);
    names.unique_seq_to_set();
    assert forall|i: int| 0 <= i < names.len() implies #[trigger] collected(names, values)[names[i]]
        == values[i] by {
        assert forall|j: int| i < j < values.len() implies names[j] != names[i] by {
        }
    }
}

/// When a name is requested more than once, the value fetched at its last
/// position is the one kept, and the result has one entry per distinct name.
pub proof fn lemma_last_write_wins(names: Seq<Seq<char>>, values: Seq<Seq<char>>, i: int)
    requires
        values.len() == names.len(),
        0 <= i < names.len(),
        forall|j: int| i < j < names.len() ==> names[j] != names[i],
    ensures
        collected(names, values).dom() == names.to_set(),
        collected(names, values).contains_key(names[i]),
        collected(names, values)[names[i]] == values[i],
{
    lemma_collected_entries(names, values);
    assert(names.take(values.len() as int) =~= names);
    assert(names.to_set().contains(names[i]));
}

/// A run that requests no name fetches nothing: its session is complete
/// from the start, so it asks for no name, and it prints nothing in either
/// output mode.
pub proof fn lemma_no_names_no_fetch(
    session: FetchSession,
    only_value: bool,
    values: Seq<Seq<char>>,
    secrets: Map<Seq<char>, Seq<char>>,
)
    requires
        session.wf(),
        session.requested().len() == 0,
    ensures
        session.is_complete(),
        session.secrets() == Map::<Seq<char>, Seq<char>>::empty(),
        output_spec(session.requested().len() > 0, only_value, values, secrets).len() == 0,
{
}

/// A run of fetches, one name at a time in the order requested, stopping for
/// good at the first failure.
pub struct FetchSession {
    names: Vec<String>,
    next: usize,
    failed: bool,
    secrets: SecretsMap,
    fetched: Ghost<Seq<Seq<char>>>,
}

impl FetchSession {
    /// The names requested, in order.
    pub closed spec fn requested(&self) -> Seq<Seq<char>> {
        names_view(self.names@)
    }

    /// The values fetched so far, one for each of the first requested names.
    pub closed spec fn fetched(&self) -> Seq<Seq<char>> {
        self.fetched@
    }

    /// Whether a fetch has failed.
    pub closed spec fn has_failed(&self) -> bool {
        self.failed
    }

    /// The map of what has been fetched so far.
    pub closed spec fn secrets(&self) -> Map<Seq<char>, Seq<char>> {
        self.secrets@
    }

    /// Every requested name has been fetched.
    pub open spec fn is_complete(&self) -> bool {
        self.fetched().len() == self.requested().len()
    }

    pub closed spec fn wf(&self) -> bool {
        &&& self.next <= self.names.len()
        &&& self.fetched@.len() == self.next
        &&& self.secrets.wf()
        &&& self.secrets@ == collected(names_view(self.names@), self.fetched@)
    }

    /// Starts a session over `names`, with nothing fetched yet.
    pub fn new(names: Vec<String>) -> (r: FetchSession)
        ensures
            r.wf(),
            r.requested() == names_view(names@),
            r.fetched() == Seq::<Seq<char>>::empty(),
            !r.has_failed(),
            r.secrets() == Map::<Seq<char>, Seq<char>>::empty(),
    {
        FetchSession {
            names,
            next: 0,
            failed: false,
            secrets: SecretsMap::new(),
            fetched: Ghost(Seq::empty()),
        }
    }

    /// The name to fetch next: none once a fetch has failed or every name has
    /// been fetched.
    pub fn next_request(&self) -> (r: Option<String>)
        requires
            self.wf(),
        ensures
            r is None <==> (self.has_failed() || self.is_complete()),
            r matches Some(n) ==> n@ == self.requested()[self.fetched().len() as int],
    {
        if self.failed || self.next >= self.names.len() {
            None
        } else {
            Some(self.names[self.next].clone())
        }
    }

    /// Records the value fetched for the name that `next_request` gave.
    pub fn record_value(&mut self, value: String)
        requires
            old(self).wf(),
            !old(self).has_failed(),
            !old(self).is_complete(),
        ensures
            final(self).wf(),
            final(self).requested() == old(self).requested(),
            final(self).fetched() == old(self).fetched().push(value@),
            !final(self).has_failed(),
            final(self).secrets() == old(self).secrets().insert(
                old(self).requested()[old(self).fetched().len() as int],
                value@,
            ),
    {
        let name = self.names[self.next].clone();
        let ghost before = self.fetched@;
        self.secrets.insert(name, value);
        self.fetched = Ghost(self.fetched@.push(value@));
        self.next = self.next + 1;
        assert(self.fetched@.drop_last() =~= before);
    }

    /// Records that the fetch of the name that `next_request` gave failed:
    /// nothing more is fetched, and nothing fetched is handed out.
    pub fn record_failure(&mut self)
        requires
            old(self).wf(),
        ensures
            final(self).wf(),
            final(self).requested() == old(self).requested(),
            final(self).fetched() == old(self).fetched(),
            final(self).has_failed(),
    {
        self.failed = true;
    }

    /// The secrets, once every requested name has been fetched without a
    /// failure; none otherwise.
    pub fn into_secrets(self) -> (r: Option<SecretsMap>)
        requires
            self.wf(),
        ensures
            r is Some <==> (!self.has_failed() && self.is_complete()),
            r matches Some(m) ==> m.wf() && m@ == collected(self.requested(), self.fetched()),
    {
        if self.failed || self.next < self.names.len() {
            None
        } else {
            Some(self.secrets)
        }
    }
}

} // verus!
