//! The command dispatcher's verified core: the registries of instantiated
//! models and training sessions, and the assembly of each command's result.
//!
//! The surrounding process parses inbound commands, runs user code under a
//! panic catcher, and drives the waiters; the decisions stand here. A
//! dispose or cancel on an unknown id removes nothing and changes nothing.

use vstd::prelude::*;

use crate::messages::{
    CallCreateModelStateError, CallEvaluateError, CallGetModelStateError,
    CallInstantiateModelError, CallTrainError, EvaluateOutput, ResultMessage,
};

verus! {

/// The keys of the registry entries, in order.
pub open spec fn reg_keys<T>(s: Seq<(String, T)>) -> Seq<Seq<char>> {
    Seq::new(s.len(), |i: int| s[i].0@)
}

/// The index of the first entry with key `k`, or -1 when no entry has it.
pub open spec fn reg_index_of<T>(s: Seq<(String, T)>, k: Seq<char>) -> int
    decreases s.len(),
{
    if s.len() == 0 {
        -1
    } else if s[0].0@ == k {
        0
    } else {
        let r = reg_index_of(s.drop_first(), k);
        if r == -1 {
            -1
        } else {
            r + 1
        }
    }
}

/// Whether some entry has key `k`.
pub open spec fn reg_has<T>(s: Seq<(String, T)>, k: Seq<char>) -> bool {
    reg_index_of(s, k) >= 0
}

/// The first index with key `k` really is the first, and a key reported
/// absent is absent.
proof fn lemma_reg_index_of<T>(s: Seq<(String, T)>, k: Seq<char>)
    ensures
        reg_index_of(s, k) >= 0 ==> {
            &&& reg_index_of(s, k) < s.len()
            &&& s[reg_index_of(s, k)].0@ == k
            &&& forall|j: int| 0 <= j < reg_index_of(s, k) ==> (#[trigger] s[j]).0@ != k
        },
        reg_index_of(s, k) == -1 ==> forall|j: int| 0 <= j < s.len() ==> (#[trigger] s[j]).0@ != k,
        reg_index_of(s, k) >= -1,
    decreases s.len(),
{
    if s.len() > 0 && s[0].0@ != k {
        lemma_reg_index_of(s.drop_first(), k);
        let r = reg_index_of(s.drop_first(), k);
        if r >= 0 {
            assert(s[r + 1] == s.drop_first()[r]);
            assert forall|j: int| 0 <= j < reg_index_of(s, k) implies (#[trigger] s[j]).0@
                != k by {
                if j > 0 {
                    assert(s[j] == s.drop_first()[j - 1]);
                }
            }
        } else {
            assert forall|j: int| 0 <= j < s.len() implies (#[trigger] s[j]).0@ != k by {
                if j > 0 {
                    assert(s[j] == s.drop_first()[j - 1]);
                }
            }
        }
    }
}

/// An in-range entry carrying `k`, with no earlier entry carrying `k`, sits
/// exactly at the first index with key `k`.
proof fn lemma_reg_index_of_unique<T>(s: Seq<(String, T)>, k: Seq<char>, i: int)
    requires
        0 <= i < s.len(),
        s[i].0@ == k,
        forall|j: int| 0 <= j < i ==> (#[trigger] s[j]).0@ != k,
    ensures
        reg_index_of(s, k) == i,
    decreases i,
{
    if i > 0 {
        assert(s[0].0@ != k);
        lemma_reg_index_of_unique(s.drop_first(), k, i - 1);
        assert(forall|j: int| 1 <= j < s.len() ==> s[j] == #[trigger] s.drop_first()[j - 1]);
    }
}

/// A registry keyed by id: the instantiated models, or the training
/// sessions.
pub struct Registry<T> {
    pub entries: Vec<(String, T)>,
}

impl<T> Registry<T> {
    /// No key occurs twice.
    pub open spec fn wf(self) -> bool {
        forall|i: int, j: int|
            0 <= i < j < self.entries@.len() ==> self.entries@[i].0@ != self.entries@[j].0@
    }

    /// A fresh, empty registry.
    pub fn new() -> (r: Registry<T>)
        ensures
            r.wf(),
            r.entries@ == Seq::<(String, T)>::empty(),
    {
        Registry { entries: Vec::new() }
    }

    /// Records `value` under `key`. An entry already under `key` is removed
    /// first and handed back.
    pub fn insert(&mut self, key: String, value: T) -> (replaced: Option<T>)
        requires
            old(self).wf(),
        ensures
            final (self).wf(),
            !reg_has(old(self).entries@, key@) ==> replaced is None && final (self).entries@ == old(
                self,
            ).entries@.push((key, value)),
            reg_has(old(self).entries@, key@) ==> {
                let i = reg_index_of(old(self).entries@, key@);
                &&& replaced matches Some(v) && v == old(self).entries@[i].1
                &&& final (self).entries@ == old(self).entries@.remove(i).push((key, value))
            },
    {
        let replaced = self.remove(&key);
        let ghost mid = self.entries@;
        self.entries.push((key, value));
        proof {
            lemma_reg_index_of(old(self).entries@, key@);
            assert forall|i: int, j: int|
                0 <= i < j < self.entries@.len() implies self.entries@[i].0@
                != self.entries@[j].0@ by {
                if j < mid.len() {
                    assert(self.entries@[i] == mid[i] && self.entries@[j] == mid[j]);
                } else {
                    assert(self.entries@[i] == mid[i]);
                }
            }
        }
        replaced
    }

    /// Takes the entry under `key`, removing it. An unknown key removes
    /// nothing and changes nothing.
    pub fn remove(&mut self, key: &String) -> (r: Option<T>)
        requires
            old(self).wf(),
        ensures
            final (self).wf(),
            !reg_has(old(self).entries@, key@) ==> r is None && *final (self) == *old(self),
            reg_has(old(self).entries@, key@) ==> {
                let i = reg_index_of(old(self).entries@, key@);
                &&& r matches Some(v) && v == old(self).entries@[i].1
                &&& final (self).entries@ == old(self).entries@.remove(i)
            },
    {
        proof {
            lemma_reg_index_of(old(self).entries@, key@);
        }
        let mut i: usize = 0;
        while i < self.entries.len()
            invariant
                self == old(self),
                old(self).wf(),
                i <= self.entries@.len(),
                forall|j: int| 0 <= j < i ==> (#[trigger] self.entries@[j]).0@ != key@,
            decreases self.entries@.len() - i,
        {
            if self.entries[i].0.eq(key) {
                let ghost ix = i as int;
                let ghost w0 = old(self).entries@;
                proof {
                    lemma_reg_index_of_unique(self.entries@, key@, ix);
                }
                let (_, v) = self.entries.remove(i);
                proof {
                    let w1 = self.entries@;
                    assert(w1 == w0.remove(ix));
                    assert forall|a: int, b: int| 0 <= a < b < w1.len() implies w1[a].0@
                        != w1[b].0@ by {
                        if a < ix {
                            assert(w1[a] == w0[a]);
                        } else {
                            assert(w1[a] == w0[a + 1]);
                        }
                        if b < ix {
                            assert(w1[b] == w0[b]);
                        } else {
                            assert(w1[b] == w0[b + 1]);
                        }
                    }
                }
                return Some(v);
            }
            i = i + 1;
        }
        proof {
            if reg_has(old(self).entries@, key@) {
                let ix = reg_index_of(old(self).entries@, key@);
                assert(old(self).entries@[ix].0@ == key@);
            }
        }
        None
    }

    /// The entry under `key`, if any.
    pub fn get(&self, key: &String) -> (r: Option<&T>)
        requires
            self.wf(),
        ensures
            !reg_has(self.entries@, key@) ==> r is None,
            reg_has(self.entries@, key@) ==> (r matches Some(v) && *v
                == self.entries@[reg_index_of(self.entries@, key@)].1),
    {
        proof {
            lemma_reg_index_of(self.entries@, key@);
        }
        let mut i: usize = 0;
        while i < self.entries.len()
            invariant
                self.wf(),
                i <= self.entries@.len(),
                forall|j: int| 0 <= j < i ==> (#[trigger] self.entries@[j]).0@ != key@,
            decreases self.entries@.len() - i,
        {
            if self.entries[i].0.eq(key) {
                proof {
                    lemma_reg_index_of_unique(self.entries@, key@, i as int);
                }
                return Some(&self.entries[i].1);
            }
            i = i + 1;
        }
        proof {
            if reg_has(self.entries@, key@) {
                let ix = reg_index_of(self.entries@, key@);
                assert(self.entries@[ix].0@ == key@);
            }
        }
        None
    }
}

/// The result of a create-model-state command: no error on completion, an
/// exception carrying the panic report otherwise.
pub fn result_for_create_model_state(outcome: Result<(), String>) -> (r: ResultMessage)
    ensures
        r == match outcome {
            Ok(()) => ResultMessage::CallCreateModelState { error: None },
            Err(details) => ResultMessage::CallCreateModelState {
                error: Some(CallCreateModelStateError::Exception { details: Some(details) }),
            },
        },
{
    match outcome {
        Ok(()) => ResultMessage::CallCreateModelState { error: None },
        Err(details) => ResultMessage::CallCreateModelState {
            error: Some(CallCreateModelStateError::Exception { details: Some(details) }),
        },
    }
}

/// The result of an instantiate-model command.
pub fn result_for_instantiate_model(outcome: Result<(), String>) -> (r: ResultMessage)
    ensures
        r == match outcome {
            Ok(()) => ResultMessage::CallInstantiateModel { error: None },
            Err(details) => ResultMessage::CallInstantiateModel {
                error: Some(CallInstantiateModelError::Exception { details: Some(details) }),
            },
        },
{
    match outcome {
        Ok(()) => ResultMessage::CallInstantiateModel { error: None },
        Err(details) => ResultMessage::CallInstantiateModel {
            error: Some(CallInstantiateModelError::Exception { details: Some(details) }),
        },
    }
}

/// The result of a train command: not-found when the instantiated model is
/// unknown, disposed, or its instantiation failed; otherwise the outcome of
/// the user code.
pub fn result_for_train(outcome: Option<Result<(), String>>) -> (r: ResultMessage)
    ensures
        r == match outcome {
            None => ResultMessage::CallTrain {
                error: Some(CallTrainError::InstantiatedModelNotFound),
            },
            Some(Ok(())) => ResultMessage::CallTrain { error: None },
            Some(Err(details)) => ResultMessage::CallTrain {
                error: Some(CallTrainError::Exception { details: Some(details) }),
            },
        },
{
    match outcome {
        None => ResultMessage::CallTrain { error: Some(CallTrainError::InstantiatedModelNotFound) },
        Some(Ok(())) => ResultMessage::CallTrain { error: None },
        Some(Err(details)) => ResultMessage::CallTrain {
            error: Some(CallTrainError::Exception { details: Some(details) }),
        },
    }
}

/// The result of a get-model-state command.
pub fn result_for_get_model_state(outcome: Option<Result<(), String>>) -> (r: ResultMessage)
    ensures
        r == match outcome {
            None => ResultMessage::CallGetModelState {
                error: Some(CallGetModelStateError::InstantiatedModelNotFound),
            },
            Some(Ok(())) => ResultMessage::CallGetModelState { error: None },
            Some(Err(details)) => ResultMessage::CallGetModelState {
                error: Some(CallGetModelStateError::Exception { details: Some(details) }),
            },
        },
{
    match outcome {
        None => ResultMessage::CallGetModelState {
            error: Some(CallGetModelStateError::InstantiatedModelNotFound),
        },
        Some(Ok(())) => ResultMessage::CallGetModelState { error: None },
        Some(Err(details)) => ResultMessage::CallGetModelState {
            error: Some(CallGetModelStateError::Exception { details: Some(details) }),
        },
    }
}

/// The byte sizes of a run of segments, in order.
pub open spec fn sizes_of(segs: Seq<Seq<u8>>) -> Seq<u64> {
    Seq::new(segs.len(), |i: int| segs[i].len() as u64)
}

/// The payload of the evaluate reply: every output's segments concatenated,
/// outputs in order.
pub open spec fn payload_of(outputs: Seq<(Seq<char>, Seq<Seq<u8>>)>) -> Seq<u8>
    decreases outputs.len(),
{
    if outputs.len() == 0 {
        Seq::empty()
    } else {
        outputs[0].1.flatten() + payload_of(outputs.drop_first())
    }
}

/// One more segment extends the flattened run by that segment.
proof fn lemma_flatten_snoc(segs: Seq<Seq<u8>>, i: int)
    requires
        0 <= i < segs.len(),
    ensures
        segs.take(i + 1).flatten() == segs.take(i).flatten() + segs[i],
    decreases i,
{
    if i == 0 {
        assert(segs.take(1) =~= seq![segs[0]]);
        assert(segs.take(1).drop_first() =~= Seq::<Seq<u8>>::empty());
        assert(segs.take(1).flatten() == segs[0] + segs.take(1).drop_first().flatten());
        assert(segs.take(0).flatten() =~= Seq::<u8>::empty());
        assert(segs.take(1).flatten() =~= segs.take(0).flatten() + segs[0]);
    } else {
        lemma_flatten_snoc(segs.drop_first(), i - 1);
        assert(segs.take(i + 1).drop_first() =~= segs.drop_first().take(i));
        assert(segs.take(i).drop_first() =~= segs.drop_first().take(i - 1));
        assert(segs.take(i + 1)[0] == segs[0]);
        assert(segs.take(i)[0] == segs[0]);
        assert(segs.drop_first()[i - 1] == segs[i]);
        assert(segs.take(i + 1).flatten() == segs[0] + segs.drop_first().take(i).flatten());
        assert(segs.take(i).flatten() == segs[0] + segs.drop_first().take(i - 1).flatten());
        assert(segs[0] + (segs.drop_first().take(i - 1).flatten() + segs[i]) =~= (segs[0]
            + segs.drop_first().take(i - 1).flatten()) + segs[i]);
    }
}

/// One more output extends the payload by that output's flattened segments.
proof fn lemma_payload_snoc(outputs: Seq<(Seq<char>, Seq<Seq<u8>>)>, i: int)
    requires
        0 <= i < outputs.len(),
    ensures
        payload_of(outputs.take(i + 1)) == payload_of(outputs.take(i)) + outputs[i].1.flatten(),
    decreases i,
{
    if i == 0 {
        assert(outputs.take(1) =~= seq![outputs[0]]);
        assert(outputs.take(1)[0] == outputs[0]);
        assert(outputs.take(1).drop_first() =~= Seq::<(Seq<char>, Seq<Seq<u8>>)>::empty());
        assert(payload_of(Seq::<(Seq<char>, Seq<Seq<u8>>)>::empty()) == Seq::<u8>::empty());
        assert(payload_of(outputs.take(0)) =~= Seq::<u8>::empty());
        assert(payload_of(outputs.take(1)) =~= outputs[0].1.flatten());
        assert(payload_of(outputs.take(0)) + outputs[0].1.flatten() =~= outputs[0].1.flatten());
    } else {
        lemma_payload_snoc(outputs.drop_first(), i - 1);
        assert(outputs.take(i + 1).drop_first() =~= outputs.drop_first().take(i));
        assert(outputs.take(i).drop_first() =~= outputs.drop_first().take(i - 1));
        assert(outputs.take(i + 1)[0] == outputs[0]);
        assert(outputs.take(i)[0] == outputs[0]);
        assert(outputs.drop_first()[i - 1] == outputs[i]);
        assert(outputs[0].1.flatten() + (payload_of(outputs.drop_first().take(i - 1))
            + outputs[i].1.flatten()) =~= (outputs[0].1.flatten() + payload_of(
            outputs.drop_first().take(i - 1),
        )) + outputs[i].1.flatten());
    }
}

/// The deep view of each output pairs the name's characters with the
/// segments' bytes.
proof fn lemma_outputs_deep_view(outputs: Vec<(String, Vec<Vec<u8>>)>)
    ensures
        outputs.deep_view().len() == outputs@.len(),
        forall|i: int|
            0 <= i < outputs@.len() ==> #[trigger] outputs.deep_view()[i] == (
                outputs@[i].0@,
                outputs@[i].1.deep_view(),
            ),
        forall|i: int|
            0 <= i < outputs@.len() ==> (#[trigger] outputs.deep_view()[i]).1.len()
                == outputs@[i].1@.len(),
        forall|i: int, j: int|
            0 <= i < outputs@.len() && 0 <= j < outputs@[i].1@.len()
                ==> #[trigger] outputs.deep_view()[i].1[j] == outputs@[i].1@[j]@,
{
    assert forall|i: int|
        0 <= i < outputs@.len() implies #[trigger] outputs.deep_view()[i] == (
        outputs@[i].0@,
        outputs@[i].1.deep_view(),
    ) by {}
    assert forall|i: int, j: int|
        0 <= i < outputs@.len() && 0 <= j < outputs@[i].1@.len()
            implies #[trigger] outputs.deep_view()[i].1[j] == outputs@[i].1@[j]@ by {
        assert(outputs@[i].1.deep_view()[j] == outputs@[i].1@[j].deep_view());
        assert(outputs@[i].1@[j].deep_view() =~= outputs@[i].1@[j]@);
    }
}

/// Assembles the evaluate reply's parts from the user outputs: per output,
/// its name and the byte size of each of its segments, in emission order;
/// and as payload the concatenation of every segment's bytes in that same
/// order, for the host to cut by prefix sums.
pub fn evaluate_result_parts(outputs: &Vec<(String, Vec<Vec<u8>>)>) -> (r: (
    Vec<EvaluateOutput>,
    Vec<u8>,
))
    ensures
        r.0@.len() == outputs.deep_view().len(),
        forall|i: int|
            0 <= i < outputs.deep_view().len() ==> {
                &&& (#[trigger] r.0@[i]).name@ == outputs.deep_view()[i].0
                &&& r.0@[i].byte_sizes@ == sizes_of(outputs.deep_view()[i].1)
            },
        r.1@ == payload_of(outputs.deep_view()),
{
    let ghost dv = outputs.deep_view();
    proof {
        lemma_outputs_deep_view(*outputs);
        assert(payload_of(dv.take(0)) =~= Seq::<u8>::empty());
    }
    let mut descs: Vec<EvaluateOutput> = Vec::new();
    let mut payload: Vec<u8> = Vec::new();
    let mut i: usize = 0;
    while i < outputs.len()
        invariant
            i <= outputs@.len(),
            dv == outputs.deep_view(),
            dv.len() == outputs@.len(),
            descs@.len() == i,
            forall|k: int|
                0 <= k < i ==> {
                    &&& (#[trigger] descs@[k]).name@ == dv[k].0
                    &&& descs@[k].byte_sizes@ == sizes_of(dv[k].1)
                },
            payload@ == payload_of(dv.take(i as int)),
        decreases outputs@.len() - i,
    {
        proof {
            lemma_outputs_deep_view(*outputs);
        }
        let segs = &outputs[i].1;
        let mut byte_sizes: Vec<u64> = Vec::new();
        let mut j: usize = 0;
        let ghost before = payload@;
        proof {
            assert(dv[i as int].1.take(0).flatten() =~= Seq::<u8>::empty());
        }
        while j < segs.len()
            invariant
                j <= segs@.len(),
                dv == outputs.deep_view(),
                dv.len() == outputs@.len(),
                i < outputs@.len(),
                segs == &outputs@[i as int].1,
                dv[i as int].1.len() == segs@.len(),
                forall|k: int|
                    0 <= k < segs@.len() ==> #[trigger] dv[i as int].1[k] == segs@[k]@,
                byte_sizes@.len() == j,
                forall|k: int|
                    0 <= k < j ==> #[trigger] byte_sizes@[k] == dv[i as int].1[k].len() as u64,
                payload@ == before + dv[i as int].1.take(j as int).flatten(),
            decreases segs@.len() - j,
        {
            byte_sizes.push(segs[j].len() as u64);
            payload.extend_from_slice(segs[j].as_slice());
            proof {
                lemma_flatten_snoc(dv[i as int].1, j as int);
            }
            j = j + 1;
        }
        proof {
            assert(dv[i as int].1.take(segs@.len() as int) =~= dv[i as int].1);
            assert(byte_sizes@ =~= sizes_of(dv[i as int].1));
        }
        let name = outputs[i].0.clone();
        descs.push(EvaluateOutput { name, byte_sizes });
        proof {
            lemma_payload_snoc(dv, i as int);
        }
        i = i + 1;
    }
    proof {
        assert(dv.take(dv.len() as int) =~= dv);
    }
    (descs, payload)
}

/// Every segment of every output, in emission order.
pub open spec fn all_segments(outputs: Seq<(Seq<char>, Seq<Seq<u8>>)>) -> Seq<Seq<u8>>
    decreases outputs.len(),
{
    if outputs.len() == 0 {
        Seq::empty()
    } else {
        outputs[0].1 + all_segments(outputs.drop_first())
    }
}

/// Concatenating two runs of segments flattens to the two flattenings in
/// order.
proof fn lemma_flatten_concat(a: Seq<Seq<u8>>, b: Seq<Seq<u8>>)
    ensures
        (a + b).flatten() == a.flatten() + b.flatten(),
    decreases a.len(),
{
    if a.len() == 0 {
        assert(a + b =~= b);
        assert(a.flatten() + b.flatten() =~= b.flatten());
    } else {
        lemma_flatten_concat(a.drop_first(), b);
        assert((a + b).drop_first() =~= a.drop_first() + b);
        assert((a + b).first() == a.first());
        assert(a.first() + (a.drop_first().flatten() + b.flatten()) =~= (a.first()
            + a.drop_first().flatten()) + b.flatten());
    }
}

/// The evaluate payload is exactly the flattening of every output's
/// segments in emission order.
pub proof fn lemma_payload_is_all_segments(outputs: Seq<(Seq<char>, Seq<Seq<u8>>)>)
    ensures
        payload_of(outputs) == all_segments(outputs).flatten(),
    decreases outputs.len(),
{
    if outputs.len() == 0 {
        assert(all_segments(outputs).flatten() =~= Seq::<u8>::empty());
    } else {
        lemma_payload_is_all_segments(outputs.drop_first());
        lemma_flatten_concat(outputs[0].1, all_segments(outputs.drop_first()));
        assert(outputs[0].1 + all_segments(outputs.drop_first()) == all_segments(outputs));
    }
}

/// Where the `k`-th segment starts inside the flattened payload: the sum of
/// the sizes of the segments before it.
pub open spec fn seg_offset(ss: Seq<Seq<u8>>, k: int) -> int
    recommends
        0 <= k <= ss.len(),
    decreases k,
{
    if k <= 0 {
        0
    } else {
        ss[0].len() + seg_offset(ss.drop_first(), k - 1)
    }
}

/// Cutting the flattened payload at the prefix sums of the segment sizes
/// recovers every segment: what the host does with `byte_sizes` and the
/// single extra segment of an evaluate reply.
pub proof fn lemma_segments_recovered_by_prefix_sums(ss: Seq<Seq<u8>>, k: int)
    requires
        0 <= k < ss.len(),
    ensures
        0 <= seg_offset(ss, k),
        seg_offset(ss, k) + ss[k].len() <= ss.flatten().len(),
        ss.flatten().subrange(seg_offset(ss, k), seg_offset(ss, k) + ss[k].len()) == ss[k],
    decreases k,
{
    let fl = ss.flatten();
    assert(fl == ss[0] + ss.drop_first().flatten());
    if k == 0 {
        assert(fl.subrange(0, ss[0].len() as int) =~= ss[0]);
    } else {
        lemma_segments_recovered_by_prefix_sums(ss.drop_first(), k - 1);
        let off1 = seg_offset(ss.drop_first(), k - 1);
        assert(ss.drop_first()[k - 1] == ss[k]);
        assert(seg_offset(ss, k) == ss[0].len() + off1);
        assert(fl.subrange(
            ss[0].len() + off1,
            ss[0].len() + off1 + ss[k].len(),
        ) =~= ss.drop_first().flatten().subrange(off1, off1 + ss[k].len()));
    }
}

/// The result and extra segments of an evaluate command: not-found when the
/// instantiated model is unknown, an exception when the user code panicked,
/// and otherwise the output descriptors with the concatenated payload as the
/// single extra segment.
pub fn result_for_evaluate(outcome: Option<Result<&Vec<(String, Vec<Vec<u8>>)>, String>>) -> (r: (
    ResultMessage,
    Vec<Vec<u8>>,
))
    ensures
        match outcome {
            None => r.0 == ResultMessage::CallEvaluate {
                error: Some(CallEvaluateError::InstantiatedModelNotFound),
                outputs: None,
            } && r.1@ == Seq::<Vec<u8>>::empty(),
            Some(Err(details)) => r.0 == ResultMessage::CallEvaluate {
                error: Some(CallEvaluateError::Exception { details: Some(details) }),
                outputs: None,
            } && r.1@ == Seq::<Vec<u8>>::empty(),
            Some(Ok(outputs)) => {
                &&& r.0 matches ResultMessage::CallEvaluate { error: None, outputs: Some(descs) }
                    && descs@.len() == outputs.deep_view().len() && (forall|i: int|
                    0 <= i < outputs.deep_view().len() ==> {
                        &&& (#[trigger] descs@[i]).name@ == outputs.deep_view()[i].0
                        &&& descs@[i].byte_sizes@ == sizes_of(outputs.deep_view()[i].1)
                    })
                &&& r.1@.len() == 1
                &&& r.1@[0]@ == payload_of(outputs.deep_view())
            },
        },
{
    match outcome {
        None => (
            ResultMessage::CallEvaluate {
                error: Some(CallEvaluateError::InstantiatedModelNotFound),
                outputs: None,
            },
            Vec::new(),
        ),
        Some(Err(details)) => (
            ResultMessage::CallEvaluate {
                error: Some(CallEvaluateError::Exception { details: Some(details) }),
                outputs: None,
            },
            Vec::new(),
        ),
        Some(Ok(outputs)) => {
            let (descs, payload) = evaluate_result_parts(outputs);
            let mut extras: Vec<Vec<u8>> = Vec::new();
            extras.push(payload);
            (ResultMessage::CallEvaluate { error: None, outputs: Some(descs) }, extras)
        },
    }
}

} // verus!
