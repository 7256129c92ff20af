use vstd::prelude::*;

verus! {

/// A run of equal boolean values.
#[derive(Clone, Copy, Debug, PartialEq, Eq, Structural)]
pub struct Run {
    pub value: bool,
    pub length: usize,
}

/// `n` copies of `v`.
pub open spec fn rep(v: bool, n: nat) -> Seq<bool> {
    Seq::new(n, |_i: int| v)
}

/// The boolean sequence that a list of runs stands for.
pub open spec fn expand(s: Seq<Run>) -> Seq<bool>
    decreases s.len(),
{
    if s.len() == 0 {
        Seq::empty()
    } else {
        expand(s.drop_last()) + rep(s.last().value, s.last().length as nat)
    }
}

/// Expanding a concatenation of runs concatenates the expansions.
pub proof fn lemma_expand_concat(a: Seq<Run>, b: Seq<Run>)
    ensures
        expand(a + b) == expand(a) + expand(b),
    decreases b.len(),
{
    if b.len() == 0 {
        assert(a + b =~= a);
        assert(expand(b) =~= Seq::<bool>::empty());
        assert(expand(a) + expand(b) =~= expand(a));
    } else {
        assert((a + b).drop_last() =~= a + b.drop_last());
        lemma_expand_concat(a, b.drop_last());
        assert(expand(a + b) =~= expand(a) + expand(b));
    }
}

proof fn lemma_expand_single(r: Run)
    ensures
        expand(seq![r]) == rep(r.value, r.length as nat),
{
    assert(seq![r].drop_last() =~= Seq::<Run>::empty());
    assert(expand(Seq::<Run>::empty()) == Seq::<bool>::empty());
    assert(expand(seq![r]) == expand(seq![r].drop_last()) + rep(r.value, r.length as nat));
    assert(expand(seq![r]) =~= rep(r.value, r.length as nat));
}

/// The runs split at `k`: the runs before, run `k`, and the runs after.
proof fn lemma_expand_split(s: Seq<Run>, k: int)
    requires
        0 <= k < s.len(),
    ensures
        expand(s) == expand(s.take(k)) + rep(s[k].value, s[k].length as nat) + expand(
            s.skip(k + 1),
        ),
        expand(s.take(k + 1)) == expand(s.take(k)) + rep(s[k].value, s[k].length as nat),
{
    assert(s =~= s.take(k) + seq![s[k]] + s.skip(k + 1));
    lemma_expand_concat(s.take(k) + seq![s[k]], s.skip(k + 1));
    lemma_expand_concat(s.take(k), seq![s[k]]);
    lemma_expand_single(s[k]);
    assert(s.take(k + 1) =~= s.take(k) + seq![s[k]]);
}

proof fn lemma_expand_pair(a: Run, b: Run)
    ensures
        expand(seq![a, b]) == rep(a.value, a.length as nat) + rep(b.value, b.length as nat),
{
    assert(seq![a, b] =~= seq![a] + seq![b]);
    lemma_expand_concat(seq![a], seq![b]);
    lemma_expand_single(a);
    lemma_expand_single(b);
}

proof fn lemma_expand_triple(a: Run, b: Run, c: Run)
    ensures
        expand(seq![a, b, c]) == rep(a.value, a.length as nat) + rep(b.value, b.length as nat)
            + rep(c.value, c.length as nat),
{
    assert(seq![a, b, c] =~= seq![a, b] + seq![c]);
    lemma_expand_concat(seq![a, b], seq![c]);
    lemma_expand_pair(a, b);
    lemma_expand_single(c);
}

/// Replacing run `k` by runs that expand to it with one position changed changes that
/// position of the whole expansion.
proof fn lemma_replace_run(s: Seq<Run>, k: int, pieces: Seq<Run>, offset: int, value: bool)
    requires
        0 <= k < s.len(),
        0 <= offset < s[k].length,
        expand(pieces) == rep(s[k].value, s[k].length as nat).update(offset, value),
    ensures
        expand(s.take(k) + pieces + s.skip(k + 1)) == expand(s).update(
            expand(s.take(k)).len() + offset,
            value,
        ),
        expand(s.take(k)).len() + offset < expand(s).len(),
{
    lemma_expand_split(s, k);
    lemma_expand_concat(s.take(k) + pieces, s.skip(k + 1));
    lemma_expand_concat(s.take(k), pieces);
    assert(expand(s.take(k) + pieces + s.skip(k + 1)) =~= expand(s).update(
        expand(s.take(k)).len() + offset,
        value,
    ));
}

/// A boolean vector stored as runs of equal values.
#[derive(Debug, PartialEq, Eq)]
pub struct RleVec {
    pub data: Vec<Run>,
}

impl View for RleVec {
    type V = Seq<bool>;

    open spec fn view(&self) -> Seq<bool> {
        expand(self.data@)
    }
}

impl RleVec {
    /// The stored length fits in a machine word.
    pub open spec fn wf(&self) -> bool {
        self@.len() <= usize::MAX
    }

    /// An empty vector.
    pub fn new() -> (r: RleVec)
        ensures
            r@ == Seq::<bool>::empty(),
            r.data@.len() == 0,
            r.wf(),
    {
        RleVec { data: Vec::new() }
    }

    /// Appends `length` copies of `value`, extending the last run where it holds the same
    /// value.
    pub fn push(&mut self, value: bool, length: usize)
        requires
            old(self)@.len() + length <= usize::MAX,
        ensures
            final(self)@ == old(self)@ + rep(value, length as nat),
            final(self).wf(),
            old(self).data@.len() > 0 && old(self).data@.last().value == value
                ==> final(self).data@.len() == old(self).data@.len(),
            !(old(self).data@.len() > 0 && old(self).data@.last().value == value)
                ==> final(self).data@.len() == old(self).data@.len() + 1,
    {
        let n = self.data.len();
        if n > 0 && self.data[n - 1].value == value {
            let last = self.data[n - 1];
            proof {
                lemma_expand_split(self.data@, n - 1);
                assert(self.data@.take(n - 1) =~= self.data@.drop_last());
                assert(self@.len() >= last.length);
            }
            let ghost before = self.data@;
            self.data.set(n - 1, Run { value, length: last.length + length });
            proof {
                assert(self.data@.drop_last() =~= before.drop_last());
                assert(rep(value, (last.length + length) as nat) =~= rep(value, last.length as nat)
                    + rep(value, length as nat));
                assert(self@ =~= old(self)@ + rep(value, length as nat));
            }
        } else {
            let ghost before = self.data@;
            self.data.push(Run { value, length });
            proof {
                assert(self.data@.drop_last() =~= before);
            }
        }
    }

    /// The value at `index`, or `None` past the end.
    pub fn get(&self, index: usize) -> (r: Option<bool>)
        requires
            self.wf(),
        ensures
            r == if index < self@.len() {
                Some(self@[index as int])
            } else {
                None::<bool>
            },
    {
        let mut run_start: usize = 0;
        let mut k: usize = 0;
        while k < self.data.len()
            invariant
                self.wf(),
                k <= self.data@.len(),
                run_start == expand(self.data@.take(k as int)).len(),
                run_start <= index,
            decreases self.data@.len() - k,
        {
            let run = self.data[k];
            proof {
                lemma_expand_split(self.data@, k as int);
            }
            if index - run_start < run.length {
                return Some(run.value);
            }
            run_start += run.length;
            k += 1;
        }
        proof {
            assert(self.data@.take(k as int) =~= self.data@);
        }
        None
    }

    /// Sets the value at `index`, splitting a run where needed; fails past the end.
    pub fn change(&mut self, index: usize, value: bool) -> (r: Result<(), &'static str>)
        requires
            old(self).wf(),
        ensures
            r is Ok <==> index < old(self)@.len(),
            r is Ok ==> final(self)@ == old(self)@.update(index as int, value),
            r is Ok ==> final(self).data@.len() <= old(self).data@.len() + 2,
            r is Err ==> final(self).data@ == old(self).data@,
            r matches Err(e) ==> e@ == "Index out of bounds"@,
            final(self).wf(),
    {
        let mut run_start: usize = 0;
        let mut k: usize = 0;
        while k < self.data.len()
            invariant
                self.wf(),
                self@ == old(self)@,
                self.data@ == old(self).data@,
                k <= self.data@.len(),
                run_start == expand(self.data@.take(k as int)).len(),
                run_start <= index,
            decreases self.data@.len() - k,
        {
            let run = self.data[k];
            proof {
                lemma_expand_split(self.data@, k as int);
            }
            if index - run_start < run.length {
                let offset = index - run_start;
                self.set_in_run(k, offset, value);
                proof {
                    assert(self@ =~= old(self)@.update(index as int, value));
                }
                return Ok(());
            }
            run_start += run.length;
            k += 1;
        }
        proof {
            assert(self.data@.take(k as int) =~= self.data@);
        }
        Err("Index out of bounds")
    }
    /// Sets position `offset` of run `k`, splitting the run into up to three.
    fn set_in_run(&mut self, k: usize, offset: usize, value: bool)
        requires
            old(self).wf(),
            k < old(self).data@.len(),
            offset < old(self).data@[k as int].length,
        ensures
            final(self)@ == old(self)@.update(
                expand(old(self).data@.take(k as int)).len() + offset,
                value,
            ),
            final(self).data@.len() <= old(self).data@.len() + 2,
            final(self).wf(),
    {
        let run = self.data[k];
        let n = self.data.len();
        assert(k + 1 <= n);
        let ghost s = self.data@;
        let ghost pieces: Seq<Run>;
        if run.length == 1 {
            self.data.set(k, Run { value, length: 1 });
            proof {
                pieces = seq![Run { value, length: 1 }];
                lemma_expand_single(pieces[0]);
                assert(expand(pieces) =~= rep(run.value, 1).update(0, value));
            }
        } else if offset == 0 {
            self.data.set(k, Run { value: run.value, length: run.length - 1 });
            self.data.insert(k, Run { value, length: 1 });
            proof {
                pieces = seq![Run { value, length: 1 }, Run { value: run.value, length: (run.length - 1) as usize }];
                lemma_expand_pair(pieces[0], pieces[1]);
                assert(expand(pieces) =~= rep(run.value, run.length as nat).update(0, value));
            }
        } else if offset == run.length - 1 {
            self.data.set(k, Run { value: run.value, length: run.length - 1 });
            self.data.insert(k + 1, Run { value, length: 1 });
            proof {
                pieces = seq![Run { value: run.value, length: (run.length - 1) as usize }, Run { value, length: 1 }];
                lemma_expand_pair(pieces[0], pieces[1]);
                assert(expand(pieces) =~= rep(run.value, run.length as nat).update(offset as int, value));
            }
        } else {
            self.data.set(k, Run { value: run.value, length: offset });
            self.data.insert(k + 1, Run { value, length: 1 });
            assert(k + 1 < self.data.len());
            self.data.insert(k + 2, Run { value: run.value, length: run.length - offset - 1 });
            proof {
                pieces = seq![
                    Run { value: run.value, length: offset },
                    Run { value, length: 1 },
                    Run { value: run.value, length: (run.length - offset - 1) as usize },
                ];
                lemma_expand_triple(pieces[0], pieces[1], pieces[2]);
                assert(expand(pieces) =~= rep(run.value, run.length as nat).update(offset as int, value));
            }
        }
        proof {
            assert(self.data@ =~= s.take(k as int) + pieces + s.skip(k + 1));
            lemma_replace_run(s, k as int, pieces, offset as int, value);
        }
    }
}

} // verus!
