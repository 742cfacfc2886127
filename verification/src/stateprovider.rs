//! The outbound key-to-bytes streamer: the state provider.
//!
//! A provider collects named byte blobs over its lifetime and enforces three
//! caps: no key may be provided twice, no more than 100 keys may be provided
//! in total, and no single value may reach one gibibyte. Accepted data is
//! packed greedily into groups whose payload stays strictly below one
//! gibibyte; each group becomes one provide-state-data event whose extra
//! segments are the group's values.

use vstd::prelude::*;

verus! {

/// One gibibyte: the cap on a single value and on a group's payload.
pub open spec fn spec_gib() -> int {
    0x40000000
}

/// The sum of the value sizes in one group.
pub open spec fn group_total(g: Seq<(Seq<char>, Seq<u8>)>) -> int
    decreases g.len(),
{
    if g.len() == 0 {
        0
    } else {
        g[0].1.len() + group_total(g.drop_first())
    }
}

/// Greedy grouping with an open group `cur` whose payload is `total`: a
/// pair joins the open group while the payload stays strictly below one
/// gibibyte, and otherwise closes it and opens the next.
pub open spec fn spec_groups_acc(
    data: Seq<(Seq<char>, Seq<u8>)>,
    cur: Seq<(Seq<char>, Seq<u8>)>,
    total: int,
) -> Seq<Seq<(Seq<char>, Seq<u8>)>>
    decreases data.len(),
{
    if data.len() == 0 {
        if cur.len() == 0 {
            Seq::empty()
        } else {
            seq![cur]
        }
    } else if cur.len() == 0 || total + data[0].1.len() < spec_gib() {
        spec_groups_acc(data.drop_first(), cur.push(data[0]), total + data[0].1.len())
    } else {
        seq![cur] + spec_groups_acc(data.drop_first(), seq![data[0]], data[0].1.len() as int)
    }
}

/// The greedy grouping of `data`.
pub open spec fn spec_groups(data: Seq<(Seq<char>, Seq<u8>)>) -> Seq<
    Seq<(Seq<char>, Seq<u8>)>,
> {
    spec_groups_acc(data, Seq::empty(), 0)
}

/// Appending a pair to a group adds its value size to the total.
proof fn lemma_group_total_snoc(g: Seq<(Seq<char>, Seq<u8>)>, p: (Seq<char>, Seq<u8>))
    ensures
        group_total(g.push(p)) == group_total(g) + p.1.len(),
    decreases g.len(),
{
    if g.len() == 0 {
        assert(g.push(p)[0] == p);
        assert(g.push(p).drop_first() =~= Seq::<(Seq<char>, Seq<u8>)>::empty());
        assert(group_total(Seq::<(Seq<char>, Seq<u8>)>::empty()) == 0);
    } else {
        assert(g.push(p)[0] == g[0]);
        assert(g.push(p).drop_first() =~= g.drop_first().push(p));
        lemma_group_total_snoc(g.drop_first(), p);
    }
}

/// The grouping flattens back to the open group followed by the data, every
/// emitted group is nonempty, and every emitted group's payload is strictly
/// below one gibibyte.
proof fn lemma_batching_acc(
    data: Seq<(Seq<char>, Seq<u8>)>,
    cur: Seq<(Seq<char>, Seq<u8>)>,
    total: int,
)
    requires
        total == group_total(cur),
        cur.len() > 0 ==> total < spec_gib(),
        forall|i: int| 0 <= i < data.len() ==> (#[trigger] data[i]).1.len() < spec_gib(),
    ensures
        spec_groups_acc(data, cur, total).flatten() == cur + data,
        forall|g: int|
            0 <= g < spec_groups_acc(data, cur, total).len() ==> {
                &&& (#[trigger] spec_groups_acc(data, cur, total)[g]).len() > 0
                &&& group_total(spec_groups_acc(data, cur, total)[g]) < spec_gib()
            },
    decreases data.len(),
{
    let r = spec_groups_acc(data, cur, total);
    if data.len() == 0 {
        if cur.len() == 0 {
            assert(r.flatten() =~= cur + data);
        } else {
            assert(r == seq![cur]);
            assert(r.drop_first() =~= Seq::<Seq<(Seq<char>, Seq<u8>)>>::empty());
            assert(r.flatten() == cur + r.drop_first().flatten());
            assert(r.flatten() =~= cur + data);
        }
    } else if cur.len() == 0 || total + data[0].1.len() < spec_gib() {
        lemma_group_total_snoc(cur, data[0]);
        lemma_batching_acc(data.drop_first(), cur.push(data[0]), total + data[0].1.len());
        assert(cur.push(data[0]) + data.drop_first() =~= cur + data);
    } else {
        assert(seq![data[0]].drop_first() =~= Seq::<(Seq<char>, Seq<u8>)>::empty());
        assert(seq![data[0]][0] == data[0]);
        assert(group_total(Seq::<(Seq<char>, Seq<u8>)>::empty()) == 0);
        assert(group_total(seq![data[0]]) == data[0].1.len());
        lemma_batching_acc(data.drop_first(), seq![data[0]], data[0].1.len() as int);
        let rest = spec_groups_acc(data.drop_first(), seq![data[0]], data[0].1.len() as int);
        assert(r == seq![cur] + rest);
        assert(r.drop_first() =~= rest);
        assert(r[0] == cur);
        assert(r.flatten() == cur + rest.flatten());
        assert(seq![data[0]] + data.drop_first() =~= data);
        assert(cur + (seq![data[0]] + data.drop_first()) =~= cur + data);
        assert forall|g: int| 0 <= g < r.len() implies {
            &&& (#[trigger] r[g]).len() > 0
            &&& group_total(r[g]) < spec_gib()
        } by {
            if g > 0 {
                assert(r[g] == rest[g - 1]);
            }
        }
    }
}

/// The batching law: for every input all of whose values are below one
/// gibibyte, the groups concatenate back to exactly the input, in order, and
/// every group is nonempty with a payload strictly below one gibibyte.
pub proof fn lemma_batching(data: Seq<(Seq<char>, Seq<u8>)>)
    requires
        forall|i: int| 0 <= i < data.len() ==> (#[trigger] data[i]).1.len() < spec_gib(),
    ensures
        spec_groups(data).flatten() == data,
        forall|g: int|
            0 <= g < spec_groups(data).len() ==> {
                &&& (#[trigger] spec_groups(data)[g]).len() > 0
                &&& group_total(spec_groups(data)[g]) < spec_gib()
            },
{
    lemma_batching_acc(data, Seq::empty(), 0);
    assert(Seq::<(Seq<char>, Seq<u8>)>::empty() + data =~= data);
}

/// Whether `k` occurs among `keys`.
pub open spec fn key_in(keys: Seq<Seq<char>>, k: Seq<char>) -> bool {
    exists|i: int| 0 <= i < keys.len() && keys[i] == k
}

/// The key of each pair, in order.
pub open spec fn keys_of(data: Seq<(Seq<char>, Seq<u8>)>) -> Seq<Seq<char>> {
    Seq::new(data.len(), |i: int| data[i].0)
}

/// Whether the key at `j` repeats an already-provided key or an earlier key
/// of the same call.
pub open spec fn is_dup_at(provided: Seq<Seq<char>>, ks: Seq<Seq<char>>, j: int) -> bool {
    key_in(provided, ks[j]) || key_in(ks.take(j), ks[j])
}

/// Why a call was rejected: a repeated key, more than 100 keys in total, or
/// a single value of a gibibyte or more.
#[derive(Debug)]
pub enum ProvideError {
    DuplicateKey { key: String },
    TooManyKeys,
    ValueTooLarge,
}

/// The state provider: the id of the command it reports under, and the keys
/// provided so far.
pub struct StateProvider {
    pub command_id: String,
    pub provided: Vec<String>,
}

impl StateProvider {
    /// No key is recorded twice, and at most 100 are recorded.
    pub open spec fn wf(self) -> bool {
        &&& forall|i: int, j: int|
            0 <= i < j < self.provided.deep_view().len() ==> self.provided.deep_view()[i]
                != self.provided.deep_view()[j]
        &&& self.provided.deep_view().len() <= 100
    }
}

/// A fresh provider for the command with the given id.
pub fn create_state_provider(command_id: String) -> (r: StateProvider)
    ensures
        r.wf(),
        r.command_id == command_id,
        r.provided.deep_view() == Seq::<Seq<char>>::empty(),
{
    let r = StateProvider { command_id, provided: Vec::new() };
    assert(r.provided.deep_view() =~= Seq::<Seq<char>>::empty());
    r
}

/// Whether `k` occurs in `keys`.
fn contains_key(keys: &Vec<String>, k: &String) -> (r: bool)
    ensures
        r == key_in(keys.deep_view(), k@),
{
    let mut i: usize = 0;
    while i < keys.len()
        invariant
            i <= keys@.len(),
            keys.deep_view().len() == keys@.len(),
            forall|j: int| 0 <= j < i ==> keys.deep_view()[j] != k@,
        decreases keys@.len() - i,
    {
        if keys[i].eq(k) {
            assert(keys.deep_view()[i as int] == k@);
            return true;
        }
        assert(keys.deep_view()[i as int] == keys@[i as int]@);
        i = i + 1;
    }
    false
}

/// Whether some key of the call repeats an already-provided or earlier key.
pub open spec fn has_dup(provided: Seq<Seq<char>>, ks: Seq<Seq<char>>) -> bool {
    exists|j: int| 0 <= j < ks.len() && is_dup_at(provided, ks, j)
}

/// The deep view of each pair is the pair of views of its parts.
proof fn lemma_pairs_deep_view(data: Vec<(String, Vec<u8>)>)
    ensures
        data.deep_view().len() == data@.len(),
        forall|i: int|
            0 <= i < data@.len() ==> #[trigger] data.deep_view()[i] == (
                data@[i].0@,
                data@[i].1@,
            ),
{
    assert forall|i: int|
        0 <= i < data@.len() implies #[trigger] data.deep_view()[i] == (
        data@[i].0@,
        data@[i].1@,
    ) by {
        assert(data@[i].1.deep_view() =~= data@[i].1@);
    }
}

/// A fresh pair holding the same key and the same bytes.
fn clone_pair(p: &(String, Vec<u8>)) -> (r: (String, Vec<u8>))
    ensures
        r.0 == p.0,
        r.1@ == p.1@,
{
    let s = p.0.clone();
    let v = p.1.clone();
    proof {
        assert forall|i: int| 0 <= i < p.1@.len() implies v@[i] == p.1@[i] by {
            assert(cloned::<u8>(p.1[i], v[i]));
        }
        assert(v@ =~= p.1@);
    }
    (s, v)
}

/// The index of the first key of `data` that repeats an already-provided or
/// earlier key, if any.
fn find_duplicate(provided: &Vec<String>, data: &Vec<(String, Vec<u8>)>) -> (r: Option<usize>)
    ensures
        ({
            let p = provided.deep_view();
            let ks = keys_of(data.deep_view());
            match r {
                Some(j) => {
                    &&& j < data@.len()
                    &&& is_dup_at(p, ks, j as int)
                    &&& forall|jj: int| 0 <= jj < j ==> !is_dup_at(p, ks, jj)
                },
                None => !has_dup(p, ks),
            }
        }),
{
    let ghost p = provided.deep_view();
    let ghost ks = keys_of(data.deep_view());
    let mut j: usize = 0;
    while j < data.len()
        invariant
            j <= data@.len(),
            p == provided.deep_view(),
            ks == keys_of(data.deep_view()),
            ks.len() == data@.len(),
            forall|jj: int| 0 <= jj < j ==> !is_dup_at(p, ks, jj),
        decreases data@.len() - j,
    {
        proof {
            lemma_pairs_deep_view(*data);
        }
        if contains_key(provided, &data[j].0) {
            proof {
                assert(ks[j as int] == data@[j as int].0@);
                assert(key_in(p, ks[j as int]));
            }
            return Some(j);
        }
        let mut jj: usize = 0;
        while jj < j
            invariant
                jj <= j < data@.len(),
                p == provided.deep_view(),
                ks == keys_of(data.deep_view()),
                ks.len() == data@.len(),
                forall|jjj: int| 0 <= jjj < j ==> !is_dup_at(p, ks, jjj),
                forall|kk: int| 0 <= kk < jj ==> ks[kk] != ks[j as int],
            decreases j - jj,
        {
            proof {
                lemma_pairs_deep_view(*data);
            }
            if data[jj].0.eq(&data[j].0) {
                proof {
                    assert(ks[jj as int] == data@[jj as int].0@);
                    assert(ks[j as int] == data@[j as int].0@);
                    assert(ks.take(j as int)[jj as int] == ks[jj as int]);
                    assert(key_in(ks.take(j as int), ks[j as int]));
                }
                return Some(j);
            }
            proof {
                assert(ks[jj as int] == data@[jj as int].0@);
                assert(ks[j as int] == data@[j as int].0@);
            }
            jj = jj + 1;
        }
        proof {
            assert(!key_in(ks.take(j as int), ks[j as int])) by {
                assert(forall|kk: int|
                    0 <= kk < j ==> #[trigger] ks.take(j as int)[kk] == ks[kk]);
            }
            assert(!is_dup_at(p, ks, j as int));
        }
        j = j + 1;
    }
    None
}

impl StateProvider {
    /// Collects the given key-to-bytes pairs, enforcing the three caps, and
    /// on success records the keys and yields the greedy groups to emit:
    /// the groups concatenate back to exactly the input, and each group's
    /// payload stays strictly below one gibibyte.
    ///
    /// A repeated key (against the provider's lifetime or within the call),
    /// a cumulative key count over 100, or a single value of a gibibyte or
    /// more is rejected, in that order of checks, and leaves the provider
    /// unchanged.
    pub fn provide_all(&mut self, data: &Vec<(String, Vec<u8>)>) -> (r: Result<
        Vec<Vec<(String, Vec<u8>)>>,
        ProvideError,
    >)
        requires
            old(self).wf(),
        ensures
            final (self).wf(),
            final (self).command_id == old(self).command_id,
            ({
                let d = data.deep_view();
                let ks = keys_of(d);
                let p = old(self).provided.deep_view();
                &&& (r matches Err(ProvideError::DuplicateKey { .. }) <==> has_dup(p, ks))
                &&& (r matches Err(ProvideError::DuplicateKey { key }) ==> exists|j: int|
                    {
                        &&& 0 <= j < ks.len()
                        &&& #[trigger] is_dup_at(p, ks, j)
                        &&& key@ == ks[j]
                        &&& forall|jj: int| 0 <= jj < j ==> !is_dup_at(p, ks, jj)
                    })
                &&& (r is Err && r->Err_0 is TooManyKeys <==> !has_dup(p, ks) && p.len()
                    + ks.len() > 100)
                &&& (r is Err && r->Err_0 is ValueTooLarge <==> !has_dup(p, ks) && p.len()
                    + ks.len() <= 100 && exists|i: int|
                    0 <= i < d.len() && (#[trigger] d[i]).1.len() >= spec_gib())
                &&& (r is Ok <==> !has_dup(p, ks) && p.len() + ks.len() <= 100 && forall|i: int|
                    0 <= i < d.len() ==> (#[trigger] d[i]).1.len() < spec_gib())
                &&& (r matches Ok(groups) ==> {
                    &&& groups.deep_view() == spec_groups(d)
                    &&& final (self).provided.deep_view() == p + ks
                })
                &&& (r is Err ==> *final (self) == *old(self))
            }),
    {
        let ghost d = data.deep_view();
        let ghost ks = keys_of(d);
        let ghost p = old(self).provided.deep_view();
        proof {
            lemma_pairs_deep_view(*data);
        }
        match find_duplicate(&self.provided, data) {
            Some(j) => {
                let key = data[j].0.clone();
                proof {
                    assert(key@ == ks[j as int]);
                }
                return Err(ProvideError::DuplicateKey { key });
            },
            None => {},
        }
        if self.provided.len() as u128 + data.len() as u128 > 100 {
            return Err(ProvideError::TooManyKeys);
        }
        let mut i: usize = 0;
        while i < data.len()
            invariant
                self == old(self),
                old(self).wf(),
                i <= data@.len(),
                d == data.deep_view(),
                d.len() == data@.len(),
                ks == keys_of(d),
                p == old(self).provided.deep_view(),
                !has_dup(p, ks),
                p.len() + ks.len() <= 100,
                forall|k: int| 0 <= k < i ==> (#[trigger] d[k]).1.len() < spec_gib(),
            decreases data@.len() - i,
        {
            proof {
                lemma_pairs_deep_view(*data);
            }
            if data[i].1.len() >= 1073741824 {
                proof {
                    assert(d[i as int].1 == data@[i as int].1@);
                }
                return Err(ProvideError::ValueTooLarge);
            }
            i = i + 1;
        }
        let groups = batch_groups(data);
        let ghost p_mid = self.provided.deep_view();
        proof {
            assert(p_mid == p);
        }
        let mut i: usize = 0;
        while i < data.len()
            invariant
                old(self).wf(),
                i <= data@.len(),
                d == data.deep_view(),
                d.len() == data@.len(),
                ks == keys_of(d),
                ks.len() == data@.len(),
                p == old(self).provided.deep_view(),
                !has_dup(p, ks),
                p.len() + ks.len() <= 100,
                forall|k: int| 0 <= k < d.len() ==> (#[trigger] d[k]).1.len() < spec_gib(),
                self.command_id == old(self).command_id,
                self.provided.deep_view() == p + ks.take(i as int),
            decreases data@.len() - i,
        {
            proof {
                lemma_pairs_deep_view(*data);
            }
            let ghost before = self.provided.deep_view();
            let ghost prev = self.provided@;
            self.provided.push(data[i].0.clone());
            proof {
                assert forall|k: int| 0 <= k < prev.len() implies #[trigger] self.provided.deep_view()[k]
                    == before[k] by {
                    assert(self.provided@[k] == prev[k]);
                    assert(self.provided.deep_view()[k] == self.provided@[k]@);
                    assert(before[k] == prev[k]@);
                }
                assert(self.provided@[prev.len() as int]@ == data@[i as int].0@);
                assert(self.provided.deep_view()[prev.len() as int] == ks[i as int]);
                assert(self.provided.deep_view() =~= before.push(ks[i as int]));
                assert(ks.take(i + 1) =~= ks.take(i as int).push(ks[i as int]));
                assert((p + ks.take(i as int)).push(ks[i as int]) =~= p + ks.take(i + 1));
            }
            i = i + 1;
        }
        proof {
            assert(ks.take(ks.len() as int) =~= ks);
            lemma_provided_stays_distinct(p, ks, self.provided.deep_view());
        }
        Ok(groups)
    }
}

/// Recording keys none of which repeats an already-recorded or earlier key
/// keeps the record free of repeats.
proof fn lemma_provided_stays_distinct(p: Seq<Seq<char>>, ks: Seq<Seq<char>>, all: Seq<Seq<char>>)
    requires
        all == p + ks,
        forall|i: int, j: int| 0 <= i < j < p.len() ==> p[i] != p[j],
        forall|j: int| 0 <= j < ks.len() ==> !is_dup_at(p, ks, j),
    ensures
        forall|i: int, j: int| 0 <= i < j < all.len() ==> all[i] != all[j],
{
    assert forall|i: int, j: int| 0 <= i < j < all.len() implies all[i] != all[j] by {
        if j < p.len() {
        } else if i < p.len() {
            assert(!is_dup_at(p, ks, j - p.len()));
            assert(all[j] == ks[j - p.len()]);
            assert(all[i] == p[i]);
            if all[i] == all[j] {
                assert(key_in(p, ks[j - p.len()]));
            }
        } else {
            assert(!is_dup_at(p, ks, j - p.len()));
            assert(all[j] == ks[j - p.len()]);
            assert(all[i] == ks[i - p.len()]);
            if all[i] == all[j] {
                assert(ks.take(j - p.len())[i - p.len()] == ks[i - p.len()]);
                assert(key_in(ks.take(j - p.len()), ks[j - p.len()]));
            }
        }
    }
}

/// Packs the pairs greedily into groups whose payload stays strictly below
/// one gibibyte.
fn batch_groups(data: &Vec<(String, Vec<u8>)>) -> (groups: Vec<Vec<(String, Vec<u8>)>>)
    requires
        forall|i: int|
            0 <= i < data.deep_view().len() ==> (#[trigger] data.deep_view()[i]).1.len()
                < spec_gib(),
    ensures
        groups.deep_view() == spec_groups(data.deep_view()),
{
    let ghost d = data.deep_view();
    let mut groups: Vec<Vec<(String, Vec<u8>)>> = Vec::new();
    let mut cur: Vec<(String, Vec<u8>)> = Vec::new();
    let mut cur_total: usize = 0;
    let mut i: usize = 0;
    proof {
        assert(groups.deep_view() =~= Seq::<Seq<(Seq<char>, Seq<u8>)>>::empty());
        assert(cur.deep_view() =~= Seq::<(Seq<char>, Seq<u8>)>::empty());
        assert(d.skip(0) =~= d);
    }
    while i < data.len()
        invariant
            i <= data@.len(),
            d == data.deep_view(),
            d.len() == data@.len(),
            forall|k: int| 0 <= k < d.len() ==> (#[trigger] d[k]).1.len() < spec_gib(),
            cur_total == group_total(cur.deep_view()),
            cur_total < spec_gib(),
            spec_groups(d) == groups.deep_view() + spec_groups_acc(
                d.skip(i as int),
                cur.deep_view(),
                cur_total as int,
            ),
        decreases data@.len() - i,
    {
        proof {
            lemma_pairs_deep_view(*data);
            assert(d.skip(i as int)[0] == d[i as int]);
            assert(d.skip(i as int).drop_first() =~= d.skip(i + 1));
        }
        let ghost cur0 = cur.deep_view();
        let vlen = data[i].1.len();
        proof {
            assert(d[i as int].1 == data@[i as int].1@);
        }
        if cur.len() == 0 || cur_total + vlen < 1073741824 {
            let pair = clone_pair(&data[i]);
            cur.push(pair);
            cur_total = cur_total + vlen;
            proof {
                assert(cur@[cur@.len() - 1].deep_view() == d[i as int]);
                assert(cur.deep_view() =~= cur0.push(d[i as int]));
                lemma_group_total_snoc(cur0, d[i as int]);
            }
        } else {
            let mut done: Vec<(String, Vec<u8>)> = Vec::new();
            core::mem::swap(&mut done, &mut cur);
            let ghost groups0 = groups.deep_view();
            groups.push(done);
            let pair = clone_pair(&data[i]);
            cur.push(pair);
            cur_total = vlen;
            proof {
                assert(groups.deep_view() =~= groups0.push(cur0));
                assert(cur@[0].deep_view() == d[i as int]);
                assert(cur.deep_view() =~= seq![d[i as int]]);
                assert(group_total(Seq::<(Seq<char>, Seq<u8>)>::empty()) == 0);
                lemma_group_total_snoc(Seq::<(Seq<char>, Seq<u8>)>::empty(), d[i as int]);
                assert(spec_groups_acc(d.skip(i as int), cur0, group_total(cur0)) == seq![cur0]
                    + spec_groups_acc(d.skip(i + 1), seq![d[i as int]], d[i as int].1.len() as int));
                assert(groups0 + (seq![cur0] + spec_groups_acc(
                    d.skip(i + 1),
                    cur.deep_view(),
                    cur_total as int,
                )) =~= groups0.push(cur0) + spec_groups_acc(
                    d.skip(i + 1),
                    cur.deep_view(),
                    cur_total as int,
                ));
            }
        }
        i = i + 1;
    }
    proof {
        assert(d.skip(d.len() as int) =~= Seq::<(Seq<char>, Seq<u8>)>::empty());
    }
    if cur.len() > 0 {
        let ghost groups0 = groups.deep_view();
        let ghost cur0 = cur.deep_view();
        groups.push(cur);
        proof {
            assert(groups.deep_view() =~= groups0.push(cur0));
            assert(groups0 + seq![cur0] =~= groups0.push(cur0));
        }
        groups
    } else {
        proof {
            assert(cur.deep_view() =~= Seq::<(Seq<char>, Seq<u8>)>::empty());
            assert(groups.deep_view() + Seq::<Seq<(Seq<char>, Seq<u8>)>>::empty()
                =~= groups.deep_view());
        }
        groups
    }
}

/// The names of a group's pairs and their values, in the group's order, for
/// the provide-state-data event and its extra segments.
pub fn group_parts(group: Vec<(String, Vec<u8>)>) -> (r: (Vec<String>, Vec<Vec<u8>>))
    ensures
        r.0.deep_view() == keys_of(group.deep_view()),
        r.1.deep_view().len() == group.deep_view().len(),
        forall|i: int|
            0 <= i < group.deep_view().len() ==> #[trigger] r.1.deep_view()[i]
                == group.deep_view()[i].1,
{
    let ghost g = group.deep_view();
    let mut names: Vec<String> = Vec::new();
    let mut segments: Vec<Vec<u8>> = Vec::new();
    let mut i: usize = 0;
    while i < group.len()
        invariant
            i <= group@.len(),
            g == group.deep_view(),
            g.len() == group@.len(),
            names.deep_view() =~= keys_of(g).take(i as int),
            segments.deep_view().len() == i,
            forall|k: int| 0 <= k < i ==> #[trigger] segments.deep_view()[k] == g[k].1,
        decreases group@.len() - i,
    {
        proof {
            lemma_pairs_deep_view(group);
        }
        let ghost names0 = names.deep_view();
        let ghost segs0 = segments.deep_view();
        let pair = clone_pair(&group[i]);
        names.push(pair.0);
        segments.push(pair.1);
        proof {
            assert(names@[names@.len() - 1]@ == g[i as int].0);
            assert(names.deep_view() =~= names0.push(g[i as int].0));
            assert(names.deep_view() =~= keys_of(g).take(i + 1));
            assert(segments@[segments@.len() - 1].deep_view() =~= g[i as int].1);
            assert(segments.deep_view() =~= segs0.push(g[i as int].1));
        }
        i = i + 1;
    }
    proof {
        assert(keys_of(g).take(g.len() as int) =~= keys_of(g));
    }
    (names, segments)
}

} // verus!
