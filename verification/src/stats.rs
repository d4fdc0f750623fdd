use crate::Felt;
use vstd::prelude::*;
use vstd::seq_lib::*;

verus! {

/// Whether a coverage sequence holds the trace `t`.
pub open spec fn cov_has(cov: Seq<(Seq<(u32, u32)>, Seq<Felt>)>, t: Seq<(u32, u32)>) -> bool {
    exists|i: int| 0 <= i < cov.len() && cov[i].0 == t
}

/// Whether the database `db` holds the input `x`, comparing by content.
pub open spec fn has_input(db: Seq<Seq<Felt>>, x: Seq<Felt>) -> bool {
    exists|i: int| 0 <= i < db.len() && db[i] == x
}

/// Content equality of two inputs.
pub fn input_eq(a: &Vec<Felt>, b: &Vec<Felt>) -> (r: bool)
    ensures
        r == (a@ == b@),
{
    if a.len() != b.len() {
        return false;
    }
    let n = a.len();
    let mut i: usize = 0;
    while i < n
        invariant
            n == a@.len() == b@.len(),
            0 <= i <= n,
            forall|k: int| 0 <= k < i ==> a@[k] == b@[k],
        decreases n - i,
    {
        if a[i] != b[i] {
            return false;
        }
        i += 1;
    }
    proof {
        assert(a@ =~= b@);
    }
    true
}

/// Structural equality of two traces: same length, same pairs in the same order.
pub fn trace_eq(a: &Vec<(u32, u32)>, b: &Vec<(u32, u32)>) -> (r: bool)
    ensures
        r == (a@ == b@),
{
    if a.len() != b.len() {
        return false;
    }
    let n = a.len();
    let mut i: usize = 0;
    while i < n
        invariant
            n == a@.len() == b@.len(),
            0 <= i <= n,
            forall|k: int| 0 <= k < i ==> a@[k] == b@[k],
        decreases n - i,
    {
        if a[i].0 != b[i].0 || a[i].1 != b[i].1 {
            return false;
        }
        i += 1;
    }
    proof {
        assert(a@ =~= b@);
    }
    true
}

/// A fresh copy of an input, element for element.
pub fn copy_felts(v: &Vec<Felt>) -> (r: Vec<Felt>)
    ensures
        r@ == v@,
{
    let mut r: Vec<Felt> = Vec::new();
    let n = v.len();
    let mut i: usize = 0;
    while i < n
        invariant
            n == v@.len(),
            0 <= i <= n,
            r@ == v@.subrange(0, i as int),
        decreases n - i,
    {
        r.push(v[i]);
        proof {
            assert(r@ =~= v@.subrange(0, i + 1 as int));
        }
        i += 1;
    }
    proof {
        assert(r@ =~= v@);
    }
    r
}

/// A fresh copy of a trace, pair for pair.
pub fn copy_trace(v: &Vec<(u32, u32)>) -> (r: Vec<(u32, u32)>)
    ensures
        r@ == v@,
{
    let mut r: Vec<(u32, u32)> = Vec::new();
    let n = v.len();
    let mut i: usize = 0;
    while i < n
        invariant
            n == v@.len(),
            0 <= i <= n,
            r@ == v@.subrange(0, i as int),
        decreases n - i,
    {
        r.push(v[i]);
        proof {
            assert(r@ =~= v@.subrange(0, i + 1 as int));
        }
        i += 1;
    }
    proof {
        assert(r@ =~= v@);
    }
    r
}

/// Whether a vector-backed input database holds `x`.
pub fn contains_input(db: &Vec<Vec<Felt>>, x: &Vec<Felt>) -> (r: bool)
    ensures
        r == has_input(db@.map_values(|v: Vec<Felt>| v@), x@),
{
    let ghost dbv = db@.map_values(|v: Vec<Felt>| v@);
    let n = db.len();
    let mut i: usize = 0;
    while i < n
        invariant
            n == db@.len(),
            dbv == db@.map_values(|v: Vec<Felt>| v@),
            0 <= i <= n,
            forall|k: int| 0 <= k < i ==> dbv[k] != x@,
        decreases n - i,
    {
        if input_eq(&db[i], x) {
            assert(dbv[i as int] == x@);
            return true;
        }
        i += 1;
    }
    false
}

/// Appending a fresh input keeps a database duplicate-free and keeps
/// every earlier member a member.
pub proof fn lemma_push_keeps_no_duplicates_and_membership(s: Seq<Seq<Felt>>, x: Seq<Felt>)
    requires
        s.no_duplicates(),
        !has_input(s, x),
    ensures
        s.push(x).no_duplicates(),
        forall|y: Seq<Felt>| #[trigger] has_input(s, y) ==> has_input(s.push(x), y),
        has_input(s.push(x), x),
        forall|y: Seq<Felt>| #[trigger] has_input(s.push(x), y) ==> has_input(s, y) || y == x,
{
    assert forall|y: Seq<Felt>| #[trigger] has_input(s, y) implies has_input(s.push(x), y) by {
        let i = choose|i: int| 0 <= i < s.len() && s[i] == y;
        assert(s.push(x)[i] == y);
    }
    assert(s.push(x)[s.len() as int] == x);
    assert forall|y: Seq<Felt>| #[trigger] has_input(s.push(x), y) implies has_input(s, y) || y
        == x by {
        let i = choose|i: int| 0 <= i < s.push(x).len() && s.push(x)[i] == y;
        if i < s.len() {
            assert(s[i] == y);
        }
    }
}

/// Addition on u64 that saturates at the top instead of overflowing.
pub open spec fn sat_add(a: u64, b: u64) -> u64 {
    if a + b > u64::MAX {
        u64::MAX
    } else {
        (a + b) as u64
    }
}

fn sat_add_exec(a: u64, b: u64) -> (r: u64)
    ensures
        r == sat_add(a, b),
{
    if a > u64::MAX - b {
        u64::MAX
    } else {
        a + b
    }
}

/// A fresh copy of an input database, input for input.
pub fn copy_input_db(db: &Vec<Vec<Felt>>) -> (r: Vec<Vec<Felt>>)
    ensures
        r@.map_values(|v: Vec<Felt>| v@) == db@.map_values(|v: Vec<Felt>| v@),
{
    let mut r: Vec<Vec<Felt>> = Vec::new();
    let n = db.len();
    let mut i: usize = 0;
    while i < n
        invariant
            n == db@.len(),
            0 <= i <= n,
            r@.len() == i,
            forall|k: int| 0 <= k < i ==> r@[k]@ == db@[k]@,
        decreases n - i,
    {
        r.push(copy_felts(&db[i]));
        i += 1;
    }
    proof {
        assert(r@.map_values(|v: Vec<Felt>| v@) =~= db@.map_values(|v: Vec<Felt>| v@));
    }
    r
}

/// A fresh copy of a coverage database, entry for entry.
pub fn copy_cov_db(db: &Vec<(Vec<(u32, u32)>, Vec<Felt>)>) -> (r: Vec<(Vec<(u32, u32)>, Vec<Felt>)>)
    ensures
        r@.map_values(|p: (Vec<(u32, u32)>, Vec<Felt>)| (p.0@, p.1@)) == db@.map_values(
            |p: (Vec<(u32, u32)>, Vec<Felt>)| (p.0@, p.1@),
        ),
{
    let mut r: Vec<(Vec<(u32, u32)>, Vec<Felt>)> = Vec::new();
    let n = db.len();
    let mut i: usize = 0;
    while i < n
        invariant
            n == db@.len(),
            0 <= i <= n,
            r@.len() == i,
            forall|k: int| 0 <= k < i ==> r@[k].0@ == db@[k].0@ && r@[k].1@ == db@[k].1@,
        decreases n - i,
    {
        r.push((copy_trace(&db[i].0), copy_felts(&db[i].1)));
        i += 1;
    }
    proof {
        assert(r@.map_values(|p: (Vec<(u32, u32)>, Vec<Felt>)| (p.0@, p.1@)) =~= db@.map_values(
            |p: (Vec<(u32, u32)>, Vec<Felt>)| (p.0@, p.1@),
        ));
    }
    r
}

/// Shared feedback state: the corpus, the coverage map, the crash set
/// and the session counters. One global instance is shared by all
/// workers under a single lock; each worker also keeps a private shadow.
pub struct Statistics {
    /// Coverage map: each observed trace with the first input that produced it.
    pub coverage_db: Vec<(Vec<(u32, u32)>, Vec<Felt>)>,
    /// Input set, keyed by content equality, in insertion order.
    pub input_db: Vec<Vec<Felt>>,
    /// The same inputs, indexable for random selection.
    pub input_list: Vec<Vec<Felt>>,
    /// Inputs that made the virtual machine fail.
    pub crash_db: Vec<Vec<Felt>>,
    /// Total executions.
    pub fuzz_cases: u64,
    /// Total observed failures, unique or not.
    pub crashes: u64,
    /// Replay workers that exhausted their chunk.
    pub threads_finished: u64,
    /// Duplicate of the input count, for lock-free size probes.
    pub input_len: usize,
}

impl Statistics {
    /// The inputs known so far, by content, in insertion order.
    pub open spec fn inputs(self) -> Seq<Seq<Felt>> {
        self.input_db@.map_values(|v: Vec<Felt>| v@)
    }

    /// The indexable input list, by content.
    pub open spec fn list(self) -> Seq<Seq<Felt>> {
        self.input_list@.map_values(|v: Vec<Felt>| v@)
    }

    /// The crashing inputs, by content.
    pub open spec fn crash_inputs(self) -> Seq<Seq<Felt>> {
        self.crash_db@.map_values(|v: Vec<Felt>| v@)
    }

    /// The coverage entries: observed traces, each with its representative input.
    pub open spec fn cov(self) -> Seq<(Seq<(u32, u32)>, Seq<Felt>)> {
        self.coverage_db@.map_values(|p: (Vec<(u32, u32)>, Vec<Felt>)| (p.0@, p.1@))
    }

    /// Whether the coverage map already holds the trace `t`.
    pub open spec fn cov_contains(self, t: Seq<(u32, u32)>) -> bool {
        cov_has(self.cov(), t)
    }

    /// Well-formedness that every copy of the state keeps: sets hold no
    /// duplicates, crashing inputs and coverage representatives are known
    /// inputs, and the cached length agrees with the indexable list.
    pub open spec fn wf(self) -> bool {
        &&& self.inputs().no_duplicates()
        &&& self.crash_inputs().no_duplicates()
        &&& self.list().no_duplicates()
        &&& (forall|i: int, j: int|
            0 <= i < j < self.cov().len() ==> self.cov()[i].0 != self.cov()[j].0)
        &&& (forall|i: int|
            0 <= i < self.crash_inputs().len() ==> has_input(
                self.inputs(),
                self.crash_inputs()[i],
            ))
        &&& (forall|i: int|
            0 <= i < self.cov().len() ==> has_input(self.inputs(), self.cov()[i].1))
        &&& (forall|i: int|
            0 <= i < self.list().len() ==> has_input(self.inputs(), self.list()[i]))
        &&& self.input_len == self.list().len()
    }

    /// Well-formedness of the one global instance: on top of `wf`, the
    /// indexable list holds exactly the input set, in the same order.
    pub open spec fn wf_global(self) -> bool {
        &&& self.wf()
        &&& self.list() == self.inputs()
    }

    /// The empty state.
    pub fn new() -> (r: Statistics)
        ensures
            r.wf_global(),
            r.inputs().len() == 0,
            r.list().len() == 0,
            r.crash_inputs().len() == 0,
            r.cov().len() == 0,
            r.fuzz_cases == 0,
            r.crashes == 0,
            r.threads_finished == 0,
            r.input_len == 0,
    {
        let r = Statistics {
            coverage_db: Vec::new(),
            input_db: Vec::new(),
            input_list: Vec::new(),
            crash_db: Vec::new(),
            fuzz_cases: 0,
            crashes: 0,
            threads_finished: 0,
            input_len: 0,
        };
        proof {
            assert(r.inputs() =~= Seq::<Seq<Felt>>::empty());
            assert(r.list() =~= Seq::<Seq<Felt>>::empty());
            assert(r.crash_inputs() =~= Seq::<Seq<Felt>>::empty());
            assert(r.cov() =~= Seq::<(Seq<(u32, u32)>, Seq<Felt>)>::empty());
        }
        r
    }

    /// Insert an input into the global set; when it is new, mirror it in
    /// the indexable list and in the cached length.
    pub fn insert_input(&mut self, x: &Vec<Felt>) -> (added: bool)
        requires
            old(self).wf_global(),
        ensures
            final(self).wf_global(),
            added == !has_input(old(self).inputs(), x@),
            added ==> final(self).inputs() == old(self).inputs().push(x@),
            !added ==> final(self).inputs() == old(self).inputs(),
            final(self).list() == final(self).inputs(),
            final(self).cov() == old(self).cov(),
            final(self).crash_inputs() == old(self).crash_inputs(),
            final(self).fuzz_cases == old(self).fuzz_cases,
            final(self).crashes == old(self).crashes,
            final(self).threads_finished == old(self).threads_finished,
            final(self).input_len == final(self).inputs().len(),
            old(self).inputs().is_prefix_of(final(self).inputs()),
    {
        let present = contains_input(&self.input_db, x);
        if !present {
            self.input_db.push(copy_felts(x));
            self.input_list.push(copy_felts(x));
            self.input_len = self.input_list.len();
            proof {
                assert(self.inputs() =~= old(self).inputs().push(x@));
                assert(self.list() =~= old(self).list().push(x@));
                lemma_push_keeps_no_duplicates_and_membership(old(self).inputs(), x@);
                assert(self.list() =~= self.inputs());
                assert forall|i: int, j: int|
                    0 <= i < j < self.cov().len() implies self.cov()[i].0 != self.cov()[j].0 by {
                    assert(self.cov()[i] == old(self).cov()[i]);
                    assert(self.cov()[j] == old(self).cov()[j]);
                }
                assert forall|i: int|
                    0 <= i < self.crash_inputs().len() implies has_input(
                    self.inputs(),
                    self.crash_inputs()[i],
                ) by {
                    assert(has_input(old(self).inputs(), old(self).crash_inputs()[i]));
                }
                assert forall|i: int|
                    0 <= i < self.cov().len() implies has_input(self.inputs(), self.cov()[i].1) by {
                    assert(has_input(old(self).inputs(), old(self).cov()[i].1));
                }
                assert forall|i: int|
                    0 <= i < self.list().len() implies has_input(self.inputs(), self.list()[i]) by {
                    assert(self.inputs()[i] == self.list()[i]);
                }
            }
            true
        } else {
            proof {
                assert(self.inputs() =~= old(self).inputs());
            }
            false
        }
    }

    /// Insert an input into a worker's private shadow set. The shadow's
    /// indexable list and cached length follow the global state only, so
    /// they are left alone.
    pub fn insert_input_local(&mut self, x: &Vec<Felt>) -> (added: bool)
        requires
            old(self).wf(),
        ensures
            final(self).wf(),
            added == !has_input(old(self).inputs(), x@),
            added ==> final(self).inputs() == old(self).inputs().push(x@),
            !added ==> final(self).inputs() == old(self).inputs(),
            final(self).list() == old(self).list(),
            final(self).cov() == old(self).cov(),
            final(self).crash_inputs() == old(self).crash_inputs(),
            final(self).fuzz_cases == old(self).fuzz_cases,
            final(self).crashes == old(self).crashes,
            final(self).threads_finished == old(self).threads_finished,
            final(self).input_len == old(self).input_len,
            old(self).inputs().is_prefix_of(final(self).inputs()),
    {
        let present = contains_input(&self.input_db, x);
        if !present {
            self.input_db.push(copy_felts(x));
            proof {
                assert(self.inputs() =~= old(self).inputs().push(x@));
                lemma_push_keeps_no_duplicates_and_membership(old(self).inputs(), x@);
                assert forall|i: int, j: int|
                    0 <= i < j < self.cov().len() implies self.cov()[i].0 != self.cov()[j].0 by {
                    assert(self.cov()[i] == old(self).cov()[i]);
                    assert(self.cov()[j] == old(self).cov()[j]);
                }
                assert forall|i: int|
                    0 <= i < self.crash_inputs().len() implies has_input(
                    self.inputs(),
                    self.crash_inputs()[i],
                ) by {
                    assert(has_input(old(self).inputs(), old(self).crash_inputs()[i]));
                }
                assert forall|i: int|
                    0 <= i < self.cov().len() implies has_input(self.inputs(), self.cov()[i].1) by {
                    assert(has_input(old(self).inputs(), old(self).cov()[i].1));
                }
                assert forall|i: int|
                    0 <= i < self.list().len() implies has_input(self.inputs(), self.list()[i]) by {
                    assert(has_input(old(self).inputs(), old(self).list()[i]));
                }
            }
            true
        } else {
            proof {
                assert(self.inputs() =~= old(self).inputs());
            }
            false
        }
    }

    /// Whether the coverage map already holds the trace `t`.
    pub fn contains_trace(&self, t: &Vec<(u32, u32)>) -> (r: bool)
        ensures
            r == self.cov_contains(t@),
    {
        let n = self.coverage_db.len();
        let mut i: usize = 0;
        while i < n
            invariant
                n == self.coverage_db@.len(),
                0 <= i <= n,
                forall|k: int| 0 <= k < i ==> self.cov()[k].0 != t@,
            decreases n - i,
        {
            if trace_eq(&self.coverage_db[i].0, t) {
                assert(self.cov()[i as int].0 == t@);
                return true;
            }
            assert(self.cov()[i as int].0 == self.coverage_db@[i as int].0@);
            i += 1;
        }
        false
    }

    /// Record locally that `t` is new coverage produced by `x`: remember the
    /// input and map the trace to it. Reports whether the trace was new here.
    pub fn observe_coverage(&mut self, t: &Vec<(u32, u32)>, x: &Vec<Felt>) -> (is_new: bool)
        requires
            old(self).wf(),
        ensures
            final(self).wf(),
            is_new == !old(self).cov_contains(t@),
            is_new ==> final(self).cov() == old(self).cov().push((t@, x@)),
            !is_new ==> final(self).cov() == old(self).cov(),
            is_new && !has_input(old(self).inputs(), x@) ==> final(self).inputs() == old(
                self,
            ).inputs().push(x@),
            is_new && has_input(old(self).inputs(), x@) ==> final(self).inputs() == old(
                self,
            ).inputs(),
            !is_new ==> final(self).inputs() == old(self).inputs(),
            final(self).list() == old(self).list(),
            final(self).crash_inputs() == old(self).crash_inputs(),
            final(self).fuzz_cases == old(self).fuzz_cases,
            final(self).crashes == old(self).crashes,
            final(self).threads_finished == old(self).threads_finished,
            final(self).input_len == old(self).input_len,
            old(self).cov().is_prefix_of(final(self).cov()),
            old(self).inputs().is_prefix_of(final(self).inputs()),
            forall|tr: Seq<(u32, u32)>|
                final(self).cov_contains(tr) <==> old(self).cov_contains(tr) || (is_new && tr
                    == t@),
    {
        let is_new = !self.contains_trace(t);
        if is_new {
            let added = self.insert_input_local(x);
            let ghost mid = *self;
            self.coverage_db.push((copy_trace(t), copy_felts(x)));
            proof {
                if added {
                    assert(mid.inputs()[mid.inputs().len() - 1] == x@);
                }
                assert(has_input(mid.inputs(), x@));
                assert(self.cov() =~= mid.cov().push((t@, x@)));
                lemma_cov_push(mid, *self, t@, x@);
            }
        }
        is_new
    }

    /// Commit new coverage to the global state, under the caller's lock and
    /// double check: when the trace is still unknown, remember the input
    /// (mirroring it into the list when it is new) and map the trace to it.
    /// Reports whether the trace was new and whether the input was new.
    pub fn commit_coverage(&mut self, t: &Vec<(u32, u32)>, x: &Vec<Felt>) -> (r: (bool, bool))
        requires
            old(self).wf_global(),
        ensures
            final(self).wf_global(),
            r.0 == !old(self).cov_contains(t@),
            r.0 ==> final(self).cov() == old(self).cov().push((t@, x@)),
            !r.0 ==> final(self).cov() == old(self).cov(),
            r.1 == (r.0 && !has_input(old(self).inputs(), x@)),
            r.1 ==> final(self).inputs() == old(self).inputs().push(x@),
            !r.1 ==> final(self).inputs() == old(self).inputs(),
            final(self).list() == final(self).inputs(),
            final(self).input_len == final(self).inputs().len(),
            final(self).crash_inputs() == old(self).crash_inputs(),
            final(self).fuzz_cases == old(self).fuzz_cases,
            final(self).crashes == old(self).crashes,
            final(self).threads_finished == old(self).threads_finished,
            old(self).cov().is_prefix_of(final(self).cov()),
            old(self).inputs().is_prefix_of(final(self).inputs()),
            forall|tr: Seq<(u32, u32)>|
                final(self).cov_contains(tr) <==> old(self).cov_contains(tr) || (r.0 && tr == t@),
            forall|y: Seq<Felt>|
                has_input(final(self).inputs(), y) <==> has_input(old(self).inputs(), y) || (r.1
                    && y == x@),
    {
        let is_new = !self.contains_trace(t);
        let mut input_added = false;
        if is_new {
            input_added = self.insert_input(x);
            let ghost mid = *self;
            self.coverage_db.push((copy_trace(t), copy_felts(x)));
            proof {
                if input_added {
                    assert(mid.inputs()[mid.inputs().len() - 1] == x@);
                    lemma_push_keeps_no_duplicates_and_membership(old(self).inputs(), x@);
                }
                assert(has_input(mid.inputs(), x@));
                assert(self.cov() =~= mid.cov().push((t@, x@)));
                lemma_cov_push(mid, *self, t@, x@);
            }
        }
        (is_new, input_added)
    }

    /// Record a crash of input `x`, under the caller's lock: count it, make
    /// the input known (mirroring it into the list when it is new) and add it
    /// to the crash set. Reports whether the crash was a new unique one.
    pub fn record_crash(&mut self, x: &Vec<Felt>) -> (new_unique: bool)
        requires
            old(self).wf_global(),
        ensures
            final(self).wf_global(),
            final(self).crashes == sat_add(old(self).crashes, 1),
            new_unique == !has_input(old(self).crash_inputs(), x@),
            new_unique ==> final(self).crash_inputs() == old(self).crash_inputs().push(x@),
            !new_unique ==> final(self).crash_inputs() == old(self).crash_inputs(),
            has_input(old(self).inputs(), x@) ==> final(self).inputs() == old(self).inputs(),
            !has_input(old(self).inputs(), x@) ==> final(self).inputs() == old(
                self,
            ).inputs().push(x@),
            final(self).list() == final(self).inputs(),
            final(self).input_len == final(self).inputs().len(),
            final(self).cov() == old(self).cov(),
            final(self).fuzz_cases == old(self).fuzz_cases,
            final(self).threads_finished == old(self).threads_finished,
            old(self).cov().is_prefix_of(final(self).cov()),
            old(self).inputs().is_prefix_of(final(self).inputs()),
            old(self).crash_inputs().is_prefix_of(final(self).crash_inputs()),
            forall|y: Seq<Felt>|
                has_input(final(self).crash_inputs(), y) <==> has_input(
                    old(self).crash_inputs(),
                    y,
                ) || y == x@,
            forall|y: Seq<Felt>|
                has_input(final(self).inputs(), y) <==> has_input(old(self).inputs(), y) || y
                    == x@,
    {
        self.crashes = sat_add_exec(self.crashes, 1);
        proof {
            lemma_wf_from_views(*old(self), *self);
        }
        let added = self.insert_input(x);
        proof {
            if added {
                lemma_push_keeps_no_duplicates_and_membership(old(self).inputs(), x@);
            } else {
                assert(has_input(self.inputs(), x@));
            }
        }
        let new_unique = !contains_input(&self.crash_db, x);
        if new_unique {
            let ghost mid = *self;
            self.crash_db.push(copy_felts(x));
            proof {
                assert(self.crash_inputs() =~= mid.crash_inputs().push(x@));
                lemma_push_keeps_no_duplicates_and_membership(mid.crash_inputs(), x@);
                lemma_crash_push(mid, *self, x@);
            }
        }
        new_unique
    }

    /// Record a crash of input `x` in a worker's private shadow.
    pub fn record_crash_local(&mut self, x: &Vec<Felt>)
        requires
            old(self).wf(),
        ensures
            final(self).wf(),
            final(self).crashes == sat_add(old(self).crashes, 1),
            final(self).cov() == old(self).cov(),
            final(self).list() == old(self).list(),
            final(self).input_len == old(self).input_len,
            final(self).fuzz_cases == old(self).fuzz_cases,
            final(self).threads_finished == old(self).threads_finished,
            has_input(final(self).inputs(), x@),
            has_input(final(self).crash_inputs(), x@),
            old(self).cov().is_prefix_of(final(self).cov()),
            old(self).inputs().is_prefix_of(final(self).inputs()),
            old(self).crash_inputs().is_prefix_of(final(self).crash_inputs()),
    {
        self.crashes = sat_add_exec(self.crashes, 1);
        proof {
            lemma_wf_from_views(*old(self), *self);
        }
        let added = self.insert_input_local(x);
        proof {
            if added {
                lemma_push_keeps_no_duplicates_and_membership(old(self).inputs(), x@);
            }
        }
        if !contains_input(&self.crash_db, x) {
            let ghost mid = *self;
            self.crash_db.push(copy_felts(x));
            proof {
                assert(self.crash_inputs() =~= mid.crash_inputs().push(x@));
                lemma_push_keeps_no_duplicates_and_membership(mid.crash_inputs(), x@);
                lemma_crash_push(mid, *self, x@);
            }
        }
    }

    /// Refresh a worker's shadow from the global state when the corpus has
    /// grown elsewhere: copy the coverage map, the corpus and the crash set;
    /// keep the private counters.
    pub fn refresh_from(&mut self, g: &Statistics)
        requires
            old(self).wf(),
            g.wf_global(),
        ensures
            final(self).wf(),
            old(self).input_len == g.input_len ==> *final(self) == *old(self),
            old(self).input_len != g.input_len ==> {
                &&& final(self).cov() == g.cov()
                &&& final(self).inputs() == g.inputs()
                &&& final(self).list() == g.list()
                &&& final(self).crash_inputs() == g.crash_inputs()
                &&& final(self).input_len == g.input_len
            },
            final(self).fuzz_cases == old(self).fuzz_cases,
            final(self).crashes == old(self).crashes,
            final(self).threads_finished == old(self).threads_finished,
    {
        if self.input_len != g.input_len {
            self.coverage_db = copy_cov_db(&g.coverage_db);
            self.input_db = copy_input_db(&g.input_db);
            self.input_list = copy_input_db(&g.input_list);
            self.crash_db = copy_input_db(&g.crash_db);
            self.input_len = g.input_len;
            proof {
                assert(self.cov() =~= g.cov());
                assert(self.inputs() =~= g.inputs());
                assert(self.list() =~= g.list());
                assert(self.crash_inputs() =~= g.crash_inputs());
                lemma_wf_from_views(*g, *self);
            }
        }
    }

    /// Add a batch of executed cases to the counter, saturating at the top.
    pub fn add_fuzz_cases(&mut self, n: u64)
        ensures
            final(self).fuzz_cases == sat_add(old(self).fuzz_cases, n),
            final(self).cov() == old(self).cov(),
            final(self).inputs() == old(self).inputs(),
            final(self).list() == old(self).list(),
            final(self).crash_inputs() == old(self).crash_inputs(),
            final(self).crashes == old(self).crashes,
            final(self).threads_finished == old(self).threads_finished,
            final(self).input_len == old(self).input_len,
            old(self).wf() ==> final(self).wf(),
            old(self).wf_global() ==> final(self).wf_global(),
    {
        self.fuzz_cases = sat_add_exec(self.fuzz_cases, n);
        proof {
            if old(self).wf() {
                lemma_wf_from_views(*old(self), *self);
            }
        }
    }

    /// Note that one replay worker has exhausted its chunk.
    pub fn mark_thread_finished(&mut self)
        ensures
            final(self).threads_finished == sat_add(old(self).threads_finished, 1),
            final(self).cov() == old(self).cov(),
            final(self).inputs() == old(self).inputs(),
            final(self).list() == old(self).list(),
            final(self).crash_inputs() == old(self).crash_inputs(),
            final(self).crashes == old(self).crashes,
            final(self).fuzz_cases == old(self).fuzz_cases,
            final(self).input_len == old(self).input_len,
            old(self).wf() ==> final(self).wf(),
            old(self).wf_global() ==> final(self).wf_global(),
    {
        self.threads_finished = sat_add_exec(self.threads_finished, 1);
        proof {
            if old(self).wf() {
                lemma_wf_from_views(*old(self), *self);
            }
        }
    }

    /// The `i`-th input of the indexable list, for random corpus selection.
    pub fn get_input_by_index(&self, i: usize) -> (r: Vec<Felt>)
        requires
            i < self.input_list@.len(),
        ensures
            r@ == self.list()[i as int],
    {
        copy_felts(&self.input_list[i])
    }
}

/// The coverage map never outgrows the input set: when its representative
/// inputs are pairwise distinct — as they are whenever each recorded trace
/// is what the deterministic virtual machine produces from its input — the
/// map has at most one entry per known input.
pub proof fn lemma_coverage_le_inputs(s: Statistics)
    requires
        s.wf(),
        forall|i: int, j: int| 0 <= i < j < s.cov().len() ==> s.cov()[i].1 != s.cov()[j].1,
    ensures
        s.cov().len() <= s.inputs().len(),
{
    broadcast use vstd::seq_lib::seq_to_set_is_finite;
    broadcast use vstd::set::group_set_axioms;

    let vals = Seq::new(s.cov().len(), |i: int| s.cov()[i].1);
    assert forall|i: int, j: int|
        0 <= i < vals.len() && 0 <= j < vals.len() && i != j implies vals[i] != vals[j] by {
        if i < j {
            assert(s.cov()[i].1 != s.cov()[j].1);
        } else {
            assert(s.cov()[j].1 != s.cov()[i].1);
        }
    }
    vals.unique_seq_to_set();
    assert forall|x: Seq<Felt>| vals.to_set().contains(x) implies s.inputs().to_set().contains(
        x,
    ) by {
        let i = choose|i: int| 0 <= i < vals.len() && vals[i] == x;
        assert(has_input(s.inputs(), s.cov()[i].1));
        let m = choose|m: int| 0 <= m < s.inputs().len() && s.inputs()[m] == x;
        assert(s.inputs().contains(x));
    }
    vstd::set_lib::lemma_len_subset(vals.to_set(), s.inputs().to_set());
    s.inputs().lemma_cardinality_of_set();
}

/// Every crashing input is a known input.
pub proof fn lemma_crashes_subset_of_inputs(s: Statistics)
    requires
        s.wf(),
    ensures
        forall|i: int|
            0 <= i < s.crash_inputs().len() ==> has_input(s.inputs(), s.crash_inputs()[i]),
{
}

/// On the global state the indexable list, the input set and the cached
/// length all agree.
pub proof fn lemma_corpus_sizes_agree(s: Statistics)
    requires
        s.wf_global(),
    ensures
        s.list() == s.inputs(),
        s.list().len() == s.inputs().len(),
        s.input_len == s.inputs().len(),
{
}

/// Growth by appending never loses an element: every covered trace stays
/// covered and every recorded crash stays recorded.
pub proof fn lemma_monotonic_growth(pre: Statistics, post: Statistics)
    requires
        pre.cov().is_prefix_of(post.cov()),
        pre.crash_inputs().is_prefix_of(post.crash_inputs()),
        pre.inputs().is_prefix_of(post.inputs()),
    ensures
        forall|tr: Seq<(u32, u32)>| #[trigger] pre.cov_contains(tr) ==> post.cov_contains(tr),
        forall|y: Seq<Felt>| #[trigger]
            has_input(pre.crash_inputs(), y) ==> has_input(post.crash_inputs(), y),
        forall|y: Seq<Felt>| #[trigger] has_input(pre.inputs(), y) ==> has_input(post.inputs(), y),
{
    assert forall|tr: Seq<(u32, u32)>| #[trigger]
        pre.cov_contains(tr) implies post.cov_contains(tr) by {
        let i = choose|i: int| 0 <= i < pre.cov().len() && pre.cov()[i].0 == tr;
        assert(post.cov()[i] == pre.cov()[i]);
    }
    assert forall|y: Seq<Felt>| #[trigger]
        has_input(pre.crash_inputs(), y) implies has_input(post.crash_inputs(), y) by {
        let i = choose|i: int| 0 <= i < pre.crash_inputs().len() && pre.crash_inputs()[i] == y;
        assert(post.crash_inputs()[i] == y);
    }
    assert forall|y: Seq<Felt>| #[trigger]
        has_input(pre.inputs(), y) implies has_input(post.inputs(), y) by {
        let i = choose|i: int| 0 <= i < pre.inputs().len() && pre.inputs()[i] == y;
        assert(post.inputs()[i] == y);
    }
}

/// Two states with the same contents are equally well formed.
pub proof fn lemma_wf_from_views(pre: Statistics, post: Statistics)
    requires
        post.cov() == pre.cov(),
        post.inputs() == pre.inputs(),
        post.list() == pre.list(),
        post.crash_inputs() == pre.crash_inputs(),
        post.input_len == pre.input_len,
    ensures
        pre.wf() ==> post.wf(),
        pre.wf_global() ==> post.wf_global(),
{
    if pre.wf() {
        assert forall|i: int, j: int|
            0 <= i < j < post.cov().len() implies post.cov()[i].0 != post.cov()[j].0 by {
            assert(post.cov()[i] == pre.cov()[i]);
            assert(post.cov()[j] == pre.cov()[j]);
        }
        assert forall|i: int|
            0 <= i < post.crash_inputs().len() implies has_input(
            post.inputs(),
            post.crash_inputs()[i],
        ) by {
            assert(has_input(pre.inputs(), pre.crash_inputs()[i]));
        }
        assert forall|i: int|
            0 <= i < post.cov().len() implies has_input(post.inputs(), post.cov()[i].1) by {
            assert(post.cov()[i] == pre.cov()[i]);
            assert(has_input(pre.inputs(), pre.cov()[i].1));
        }
        assert forall|i: int|
            0 <= i < post.list().len() implies has_input(post.inputs(), post.list()[i]) by {
            assert(has_input(pre.inputs(), pre.list()[i]));
        }
    }
}

/// Appending one new trace keeps the coverage map well formed and adds
/// exactly that trace to the covered set.
pub proof fn lemma_cov_push(pre: Statistics, post: Statistics, t: Seq<(u32, u32)>, x: Seq<Felt>)
    requires
        pre.wf(),
        !pre.cov_contains(t),
        has_input(pre.inputs(), x),
        post.cov() == pre.cov().push((t, x)),
        post.inputs() == pre.inputs(),
        post.list() == pre.list(),
        post.crash_inputs() == pre.crash_inputs(),
        post.input_len == pre.input_len,
    ensures
        post.wf(),
        forall|tr: Seq<(u32, u32)>|
            post.cov_contains(tr) <==> pre.cov_contains(tr) || tr == t,
{
    assert forall|i: int, j: int|
        0 <= i < j < post.cov().len() implies post.cov()[i].0 != post.cov()[j].0 by {
        if j < pre.cov().len() {
            assert(post.cov()[i] == pre.cov()[i]);
            assert(post.cov()[j] == pre.cov()[j]);
        } else {
            assert(post.cov()[j] == (t, x));
            assert(post.cov()[i] == pre.cov()[i]);
            if pre.cov()[i].0 == t {
                assert(pre.cov_contains(t));
            }
        }
    }
    assert forall|i: int|
        0 <= i < post.cov().len() implies has_input(post.inputs(), post.cov()[i].1) by {
        if i < pre.cov().len() {
            assert(post.cov()[i] == pre.cov()[i]);
            assert(has_input(pre.inputs(), pre.cov()[i].1));
        } else {
            assert(post.cov()[i] == (t, x));
        }
    }
    assert forall|i: int|
        0 <= i < post.crash_inputs().len() implies has_input(
        post.inputs(),
        post.crash_inputs()[i],
    ) by {
        assert(has_input(pre.inputs(), pre.crash_inputs()[i]));
    }
    assert forall|i: int|
        0 <= i < post.list().len() implies has_input(post.inputs(), post.list()[i]) by {
        assert(has_input(pre.inputs(), pre.list()[i]));
    }
    assert forall|tr: Seq<(u32, u32)>|
        post.cov_contains(tr) <==> pre.cov_contains(tr) || tr == t by {
        if post.cov_contains(tr) {
            let i = choose|i: int| 0 <= i < post.cov().len() && post.cov()[i].0 == tr;
            if i < pre.cov().len() {
                assert(pre.cov()[i] == post.cov()[i]);
                assert(pre.cov_contains(tr));
            } else {
                assert(post.cov()[i] == (t, x));
            }
        }
        if pre.cov_contains(tr) {
            let i = choose|i: int| 0 <= i < pre.cov().len() && pre.cov()[i].0 == tr;
            assert(post.cov()[i] == pre.cov()[i]);
            assert(post.cov_contains(tr));
        }
        if tr == t {
            assert(post.cov()[pre.cov().len() as int].0 == t);
            assert(post.cov_contains(tr));
        }
    }
}

/// Appending one new crashing input keeps the state well formed.
pub proof fn lemma_crash_push(pre: Statistics, post: Statistics, x: Seq<Felt>)
    requires
        pre.wf(),
        has_input(pre.inputs(), x),
        !has_input(pre.crash_inputs(), x),
        post.crash_inputs() == pre.crash_inputs().push(x),
        post.cov() == pre.cov(),
        post.inputs() == pre.inputs(),
        post.list() == pre.list(),
        post.input_len == pre.input_len,
    ensures
        post.wf(),
{
    lemma_push_keeps_no_duplicates_and_membership(pre.crash_inputs(), x);
    assert forall|i: int, j: int|
        0 <= i < j < post.cov().len() implies post.cov()[i].0 != post.cov()[j].0 by {
        assert(post.cov()[i] == pre.cov()[i]);
        assert(post.cov()[j] == pre.cov()[j]);
    }
    assert forall|i: int|
        0 <= i < post.cov().len() implies has_input(post.inputs(), post.cov()[i].1) by {
        assert(post.cov()[i] == pre.cov()[i]);
        assert(has_input(pre.inputs(), pre.cov()[i].1));
    }
    assert forall|i: int|
        0 <= i < post.crash_inputs().len() implies has_input(
        post.inputs(),
        post.crash_inputs()[i],
    ) by {
        if i < pre.crash_inputs().len() {
            assert(post.crash_inputs()[i] == pre.crash_inputs()[i]);
            assert(has_input(pre.inputs(), pre.crash_inputs()[i]));
        } else {
            assert(post.crash_inputs()[i] == x);
        }
    }
    assert forall|i: int|
        0 <= i < post.list().len() implies has_input(post.inputs(), post.list()[i]) by {
        assert(has_input(pre.inputs(), pre.list()[i]));
    }
}

} // verus!
