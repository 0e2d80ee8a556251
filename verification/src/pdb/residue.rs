//! Grouping an ordered atom sequence into contiguous residues. The
//! iterator's keys are asymmetric: the first run extends while the
//! trimmed residue name alone matches the first record's, and every
//! later run extends while both residue name and chain identifier
//! match its own first record's. The residue sequence number is
//! deliberately not part of either key, so two adjacent runs that
//! share name (and, after the first run, chain) but differ only in
//! residue number coalesce into one group. The one-shot `Residue`
//! constructor instead filters on the full triple of name, number and
//! chain.
use vstd::prelude::*;
use vstd::slice::slice_subrange;
use crate::pdb::{AtomData, ResidueData};

verus! {

/// The key of every run after the first: two records belong to the
/// same run when they share residue name and chain identifier.
pub open spec fn same_res<T: AtomData>(x: T, y: T) -> bool {
    x.residue_name_spec() == y.residue_name_spec() && x.chain_id_spec() == y.chain_id_spec()
}

/// Scans forward from `j` while elements share the key of `s[start]`.
pub open spec fn run_end_from<T: AtomData>(s: Seq<T>, start: int, j: int) -> int
    decreases s.len() - j,
{
    if j < 0 || j >= s.len() {
        s.len() as int
    } else if same_res(s[start], s[j]) {
        run_end_from(s, start, j + 1)
    } else {
        j
    }
}

/// The end of the maximal run starting at `start`: every element before
/// it shares the key of `s[start]`, and the element at it (if any) does
/// not.
pub open spec fn run_end<T: AtomData>(s: Seq<T>, start: int) -> int {
    if 0 <= start < s.len() {
        run_end_from(s, start, start + 1)
    } else {
        s.len() as int
    }
}

/// The key of the iterator's first run: two records belong to it when
/// they share the trimmed residue name, whatever their chains.
pub open spec fn same_name<T: AtomData>(x: T, y: T) -> bool {
    x.residue_name_spec() == y.residue_name_spec()
}

/// Scans forward from `j` while elements share the name of `s[start]`.
pub open spec fn name_run_end_from<T: AtomData>(s: Seq<T>, start: int, j: int) -> int
    decreases s.len() - j,
{
    if j < 0 || j >= s.len() {
        s.len() as int
    } else if same_name(s[start], s[j]) {
        name_run_end_from(s, start, j + 1)
    } else {
        j
    }
}

/// The end of the maximal same-name run starting at `start`.
pub open spec fn name_run_end<T: AtomData>(s: Seq<T>, start: int) -> int {
    if 0 <= start < s.len() {
        name_run_end_from(s, start, start + 1)
    } else {
        s.len() as int
    }
}

/// A same-name run reaches past its start and at most to the end.
pub proof fn lemma_name_run_end_bounds<T: AtomData>(s: Seq<T>, start: int)
    requires
        0 <= start < s.len(),
    ensures
        start < name_run_end(s, start) <= s.len(),
        forall|k: int|
            start <= k < name_run_end(s, start) ==> same_name(s[start], #[trigger] s[k]),
        name_run_end(s, start) < s.len() ==> !same_name(s[start], s[name_run_end(s, start)]),
{
    lemma_name_run_end_from_bounds(s, start, start + 1);
}

proof fn lemma_name_run_end_from_bounds<T: AtomData>(s: Seq<T>, start: int, j: int)
    requires
        0 <= start < s.len(),
        start < j <= s.len(),
        forall|k: int| start < k < j ==> same_name(s[start], #[trigger] s[k]),
    ensures
        j <= name_run_end_from(s, start, j) <= s.len(),
        forall|k: int|
            start <= k < name_run_end_from(s, start, j) ==> same_name(
                s[start],
                #[trigger] s[k],
            ),
        name_run_end_from(s, start, j) < s.len() ==> !same_name(
            s[start],
            s[name_run_end_from(s, start, j)],
        ),
    decreases s.len() - j,
{
    if j >= s.len() {
    } else if same_name(s[start], s[j]) {
        lemma_name_run_end_from_bounds(s, start, j + 1);
    }
}

/// The name scan stops exactly at the first name change.
pub proof fn lemma_name_run_end_at<T: AtomData>(s: Seq<T>, start: int, j: int)
    requires
        0 <= start < s.len(),
        start < j <= s.len(),
        forall|k: int| start < k < j ==> same_name(s[start], #[trigger] s[k]),
        j == s.len() || !same_name(s[start], s[j]),
    ensures
        name_run_end(s, start) == j,
{
    lemma_name_run_end_at_from(s, start, start + 1, j);
}

proof fn lemma_name_run_end_at_from<T: AtomData>(s: Seq<T>, start: int, i: int, j: int)
    requires
        0 <= start < s.len(),
        start < i <= j <= s.len(),
        forall|k: int| start < k < j ==> same_name(s[start], #[trigger] s[k]),
        j == s.len() || !same_name(s[start], s[j]),
    ensures
        name_run_end_from(s, start, i) == j,
    decreases s.len() - i,
{
    if i < j {
        lemma_name_run_end_at_from(s, start, i + 1, j);
    }
}

/// The partition of a sequence into its maximal contiguous runs of one
/// name-and-chain key, in order: what the iterator walks after its
/// name-only first run.
pub open spec fn residue_runs<T: AtomData>(s: Seq<T>) -> Seq<Seq<T>>
    decreases s.len(),
    via residue_runs_decreases::<T>
{
    if s.len() == 0 {
        Seq::empty()
    } else {
        seq![s.subrange(0, run_end(s, 0))] + residue_runs(
            s.subrange(run_end(s, 0), s.len() as int),
        )
    }
}

#[via_fn]
proof fn residue_runs_decreases<T: AtomData>(s: Seq<T>) {
    if s.len() > 0 {
        lemma_run_end_bounds(s, 0);
    }
}

/// A run reaches past its start and at most to the end.
pub proof fn lemma_run_end_bounds<T: AtomData>(s: Seq<T>, start: int)
    requires
        0 <= start < s.len(),
    ensures
        start < run_end(s, start) <= s.len(),
        forall|k: int| start <= k < run_end(s, start) ==> same_res(s[start], #[trigger] s[k]),
        run_end(s, start) < s.len() ==> !same_res(s[start], s[run_end(s, start)]),
{
    lemma_run_end_from_bounds(s, start, start + 1);
}

proof fn lemma_run_end_from_bounds<T: AtomData>(s: Seq<T>, start: int, j: int)
    requires
        0 <= start < s.len(),
        start < j <= s.len(),
        forall|k: int| start < k < j ==> same_res(s[start], #[trigger] s[k]),
    ensures
        j <= run_end_from(s, start, j) <= s.len(),
        forall|k: int|
            start <= k < run_end_from(s, start, j) ==> same_res(s[start], #[trigger] s[k]),
        run_end_from(s, start, j) < s.len() ==> !same_res(
            s[start],
            s[run_end_from(s, start, j)],
        ),
    decreases s.len() - j,
{
    if j >= s.len() {
    } else if same_res(s[start], s[j]) {
        lemma_run_end_from_bounds(s, start, j + 1);
    }
}

/// The scan stops exactly at the first key change: if everything before
/// `j` matches and `j` is the end or a mismatch, the run ends at `j`.
pub proof fn lemma_run_end_at<T: AtomData>(s: Seq<T>, start: int, j: int)
    requires
        0 <= start < s.len(),
        start < j <= s.len(),
        forall|k: int| start < k < j ==> same_res(s[start], #[trigger] s[k]),
        j == s.len() || !same_res(s[start], s[j]),
    ensures
        run_end(s, start) == j,
{
    lemma_run_end_at_from(s, start, start + 1, j);
}

proof fn lemma_run_end_at_from<T: AtomData>(s: Seq<T>, start: int, i: int, j: int)
    requires
        0 <= start < s.len(),
        start < i <= j <= s.len(),
        forall|k: int| start < k < j ==> same_res(s[start], #[trigger] s[k]),
        j == s.len() || !same_res(s[start], s[j]),
    ensures
        run_end_from(s, start, i) == j,
    decreases s.len() - i,
{
    if i < j {
        lemma_run_end_at_from(s, start, i + 1, j);
    }
}

/// The name-and-chain partition is complete: its runs concatenate back
/// to the sequence, so their lengths sum to its length and nothing is
/// lost, duplicated or reordered.
pub proof fn lemma_grouping_complete<T: AtomData>(s: Seq<T>)
    ensures
        residue_runs(s).flatten() == s,
        residue_runs(s).flatten().len() == s.len(),
    decreases s.len(),
{
    if s.len() == 0 {
        assert(residue_runs(s).flatten() =~= s);
    } else {
        lemma_run_end_bounds(s, 0);
        let e = run_end(s, 0);
        let head = s.subrange(0, e);
        let tail = s.subrange(e, s.len() as int);
        lemma_grouping_complete(tail);
        let runs = residue_runs(s);
        assert(runs == seq![head] + residue_runs(tail));
        assert(runs.flatten() == (seq![head] + residue_runs(tail)).flatten());
        vstd::seq_lib::lemma_flatten_concat(seq![head], residue_runs(tail));
        assert(seq![head].flatten() =~= head) by {
            let single = seq![head];
            assert(single.first() == head);
            assert(single.drop_first() =~= Seq::<Seq<T>>::empty());
            assert(single.flatten() == head + Seq::<Seq<T>>::empty().flatten());
            assert(Seq::<Seq<T>>::empty().flatten() =~= Seq::<T>::empty());
        }
        assert(runs.flatten() == head + tail);
        assert(head + tail =~= s);
    }
}

/// The groups the iterator yields on a sequence: the name-only first
/// run, then the name-and-chain runs of the remainder.
pub open spec fn iterator_groups<T: AtomData>(s: Seq<T>) -> Seq<Seq<T>> {
    if s.len() == 0 {
        Seq::empty()
    } else {
        seq![s.subrange(0, name_run_end(s, 0))] + residue_runs(
            s.subrange(name_run_end(s, 0), s.len() as int),
        )
    }
}

/// The iterator's grouping is complete: its groups concatenate back to
/// the sequence, so their lengths sum to its length and nothing is
/// lost, duplicated or reordered.
pub proof fn lemma_iterator_grouping_complete<T: AtomData>(s: Seq<T>)
    ensures
        iterator_groups(s).flatten() == s,
        iterator_groups(s).flatten().len() == s.len(),
{
    if s.len() == 0 {
        assert(iterator_groups(s).flatten() =~= s);
    } else {
        lemma_name_run_end_bounds(s, 0);
        let e = name_run_end(s, 0);
        let head = s.subrange(0, e);
        let tail = s.subrange(e, s.len() as int);
        lemma_grouping_complete(tail);
        let runs = iterator_groups(s);
        assert(runs == seq![head] + residue_runs(tail));
        vstd::seq_lib::lemma_flatten_concat(seq![head], residue_runs(tail));
        assert(seq![head].flatten() =~= head) by {
            let single = seq![head];
            assert(single.first() == head);
            assert(single.drop_first() =~= Seq::<Seq<T>>::empty());
            assert(single.flatten() == head + Seq::<Seq<T>>::empty().flatten());
            assert(Seq::<Seq<T>>::empty().flatten() =~= Seq::<T>::empty());
        }
        assert(runs.flatten() == head + tail);
        assert(head + tail =~= s);
    }
}

/// Runs are position-independent: the run ending in a suffix matches
/// the run ending in the whole sequence, shifted by the suffix start.
proof fn lemma_run_end_shift<T: AtomData>(s: Seq<T>, i: int, j: int)
    requires
        0 <= i < s.len(),
        i < j <= s.len(),
    ensures
        run_end_from(s, i, j) == i + run_end_from(s.subrange(i, s.len() as int), 0, j - i),
    decreases s.len() - j,
{
    let suffix = s.subrange(i, s.len() as int);
    assert(suffix[0] == s[i]);
    if j >= s.len() {
    } else {
        assert(suffix[j - i] == s[j]);
        if same_res(s[i], s[j]) {
            lemma_run_end_shift(s, i, j + 1);
        }
    }
}

/// What the iterator hands out at a cursor position after its first
/// group is exactly the next group of `residue_runs` on the remaining
/// sequence: the first group of the suffix at the cursor is the run
/// the cursor spans, and the groups after it are the groups of the
/// suffix at the next cursor. Together with
/// `lemma_iterator_grouping_complete`, successive calls of
/// `ResidueIterator::next` walk the groups of `iterator_groups` in
/// order.
pub proof fn lemma_iterator_walks_runs<T: AtomData>(s: Seq<T>, i: int)
    requires
        0 <= i < s.len(),
    ensures
        residue_runs(s.subrange(i, s.len() as int)).len() >= 1,
        residue_runs(s.subrange(i, s.len() as int))[0] == s.subrange(i, run_end(s, i)),
        residue_runs(s.subrange(i, s.len() as int)).drop_first() == residue_runs(
            s.subrange(run_end(s, i), s.len() as int),
        ),
{
    let suffix = s.subrange(i, s.len() as int);
    lemma_run_end_shift(s, i, i + 1);
    let e0 = run_end(suffix, 0);
    assert(e0 == run_end(s, i) - i);
    lemma_run_end_bounds(s, i);
    let runs = residue_runs(suffix);
    assert(runs == seq![suffix.subrange(0, e0)] + residue_runs(
        suffix.subrange(e0, suffix.len() as int),
    ));
    assert(suffix.subrange(0, e0) =~= s.subrange(i, run_end(s, i)));
    assert(suffix.subrange(e0, suffix.len() as int) =~= s.subrange(
        run_end(s, i),
        s.len() as int,
    ));
    assert(runs.drop_first() =~= residue_runs(s.subrange(run_end(s, i), s.len() as int)));
}

/// Filtering distributes over appending one element.
proof fn lemma_filter_push<T>(s: Seq<T>, pred: spec_fn(T) -> bool, e: T)
    ensures
        (s + seq![e]).filter(pred) == s.filter(pred) + if pred(e) {
            seq![e]
        } else {
            Seq::<T>::empty()
        },
{
    reveal(Seq::filter);
    let t = s + seq![e];
    assert(t.drop_last() =~= s);
    assert(t.last() == e);
    if pred(e) {
        assert(s.filter(pred).push(e) =~= s.filter(pred) + seq![e]);
    } else {
        assert(s.filter(pred) =~= s.filter(pred) + Seq::<T>::empty());
    }
}

/// A non-owning view over one contiguous run of same-key records, with
/// the identity of its first member at hand.
pub struct ResidueSlice<'a, T: AtomData> {
    pub atoms: &'a [T],
    name: String,
    resseq: i32,
    chain_id: char,
}

impl<'a, T: AtomData> ResidueSlice<'a, T> {
    /// The records of this run, in specification form.
    pub closed spec fn atoms_spec(&self) -> Seq<T> {
        self.atoms@
    }

    /// The representative residue name, in specification form.
    pub closed spec fn name_spec(&self) -> Seq<char> {
        self.name@
    }

    /// The representative residue number, in specification form.
    pub closed spec fn resseq_spec(&self) -> i32 {
        self.resseq
    }

    /// The representative chain identifier, in specification form.
    pub closed spec fn chain_spec(&self) -> char {
        self.chain_id
    }
}

impl<'a, T: AtomData> ResidueData for ResidueSlice<'a, T> {
    open spec fn residue_name_spec(&self) -> Seq<char> {
        self.name_spec()
    }

    open spec fn residue_number_spec(&self) -> i32 {
        self.resseq_spec()
    }

    open spec fn chain_id_spec(&self) -> char {
        self.chain_spec()
    }

    fn residue_name(&self) -> String {
        self.name.clone()
    }

    fn residue_number(&self) -> i32 {
        self.resseq
    }

    fn chain_id(&self) -> char {
        self.chain_id
    }
}

/// A lazy, single-pass iterator over the contiguous residue runs of a
/// borrowed record sequence.
pub struct ResidueIterator<'a, T: AtomData> {
    first: usize,
    last: usize,
    chain: &'a Vec<T>,
}

impl<'a, T: AtomData> ResidueIterator<'a, T> {
    /// The borrowed sequence, in specification form.
    pub closed spec fn chain_spec(&self) -> Seq<T> {
        self.chain@
    }

    /// The start of the run about to be handed out.
    pub closed spec fn first_spec(&self) -> int {
        self.first as int
    }

    /// The end of the run about to be handed out.
    pub closed spec fn last_spec(&self) -> int {
        self.last as int
    }

    #[verifier::type_invariant]
    spec fn inv(&self) -> bool {
        self.first <= self.last <= self.chain@.len()
    }

    /// An iterator over the runs of `atoms`, or nothing for an empty
    /// sequence. It starts at the first run, whose extent goes by the
    /// trimmed residue name alone; only later runs consult the chain.
    pub fn new(atoms: &Vec<T>) -> (r: Option<ResidueIterator<'_, T>>)
        ensures
            atoms@.len() == 0 <==> r is None,
            r is Some ==> r->0.chain_spec() == atoms@ && r->0.first_spec() == 0
                && r->0.last_spec() == name_run_end(atoms@, 0),
    {
        let n = atoms.len();
        if n == 0 {
            return None;
        }
        let rep = &atoms[0];
        let rep_name = rep.residue_name();
        let mut idx: usize = 1;
        while idx < n
            invariant
                1 <= idx <= n,
                n == atoms@.len(),
                rep_name@ == atoms@[0].residue_name_spec(),
                forall|k: int| 0 < k < idx ==> same_name(atoms@[0], #[trigger] atoms@[k]),
            decreases n - idx,
        {
            let nm = atoms[idx].residue_name();
            if !(nm == rep_name) {
                proof {
                    lemma_name_run_end_at(atoms@, 0, idx as int);
                }
                return Some(ResidueIterator { first: 0, last: idx, chain: atoms });
            }
            idx = idx + 1;
        }
        proof {
            lemma_name_run_end_at(atoms@, 0, n as int);
        }
        Some(ResidueIterator { first: 0, last: n, chain: atoms })
    }

    /// The next residue run, or nothing once the cursor has passed the
    /// end: the run `[first, last)` with the identity of its first
    /// member, while the cursor advances to the following run.
    pub fn next(&mut self) -> (r: Option<ResidueSlice<'a, T>>)
        ensures
            final(self).chain_spec() == old(self).chain_spec(),
            old(self).first_spec() == old(self).chain_spec().len() ==> r is None
                && *final(self) == *old(self),
            old(self).first_spec() < old(self).chain_spec().len() ==> {
                let s = old(self).chain_spec();
                let fst = old(self).first_spec();
                let lst = old(self).last_spec();
                &&& r is Some
                &&& r->0.atoms_spec() == s.subrange(fst, lst)
                &&& r->0.residue_name_spec() == s[fst].residue_name_spec()
                &&& r->0.residue_number_spec() == s[fst].residue_number_spec()
                &&& r->0.chain_id_spec() == s[fst].chain_id_spec()
                &&& final(self).first_spec() == lst
                &&& final(self).last_spec() == run_end(s, lst)
            },
    {
        proof {
            use_type_invariant(&*self);
        }
        let n = self.chain.len();
        if self.first == n {
            return None;
        }
        let fst = self.first;
        let lst = self.last;
        let rep = &self.chain[fst];
        let out = ResidueSlice {
            atoms: slice_subrange(self.chain.as_slice(), fst, lst),
            name: rep.residue_name(),
            resseq: rep.residue_number(),
            chain_id: rep.chain_id(),
        };
        if lst == n {
            *self = ResidueIterator { first: n, last: n, chain: self.chain };
        } else {
            let nrep = &self.chain[lst];
            let nrep_name = nrep.residue_name();
            let nrep_chain = nrep.chain_id();
            let mut idx: usize = lst + 1;
            let mut stop: bool = false;
            while idx < n && !stop
                invariant
                    lst < idx <= n,
                    lst < n == self.chain@.len(),
                    nrep_name@ == self.chain@[lst as int].residue_name_spec(),
                    nrep_chain == self.chain@[lst as int].chain_id_spec(),
                    forall|k: int|
                        lst < k < idx ==> same_res(
                            self.chain@[lst as int],
                            #[trigger] self.chain@[k],
                        ),
                    stop ==> idx < n && !same_res(
                        self.chain@[lst as int],
                        self.chain@[idx as int],
                    ),
                decreases n - idx + if stop {
                    0int
                } else {
                    1int
                },
            {
                let nm = self.chain[idx].residue_name();
                let ch = self.chain[idx].chain_id();
                if !(nm == nrep_name && ch == nrep_chain) {
                    stop = true;
                } else {
                    idx = idx + 1;
                }
            }
            proof {
                lemma_run_end_at(self.chain@, lst as int, idx as int);
            }
            *self = ResidueIterator { first: lst, last: idx, chain: self.chain };
        }
        Some(out)
    }
}

/// An owning residue: the records that share the identity of the first
/// record of a sequence, with that identity at hand.
pub struct Residue<T: AtomData> {
    pub atoms: Vec<T>,
    name: String,
    resseq: i32,
    chain_id: char,
}

/// The triple filter of the one-shot constructor: residue name, residue
/// number and chain identifier all equal to the first record's.
pub open spec fn same_triple<T: AtomData>(rep: T, t: T) -> bool {
    t.residue_name_spec() == rep.residue_name_spec() && t.residue_number_spec()
        == rep.residue_number_spec() && t.chain_id_spec() == rep.chain_id_spec()
}

impl<T: AtomData> Residue<T> {
    /// The records of this residue, in specification form.
    pub closed spec fn atoms_spec(&self) -> Seq<T> {
        self.atoms@
    }

    /// The representative residue name, in specification form.
    pub closed spec fn name_spec(&self) -> Seq<char> {
        self.name@
    }

    /// The representative residue number, in specification form.
    pub closed spec fn resseq_spec(&self) -> i32 {
        self.resseq
    }

    /// The representative chain identifier, in specification form.
    pub closed spec fn chain_spec(&self) -> char {
        self.chain_id
    }

    /// An empty residue with the default identity: no records, empty
    /// name, residue number 1, chain `'A'`.
    pub fn new() -> (r: Self)
        ensures
            r.atoms_spec().len() == 0,
            r.name_spec() == Seq::<char>::empty(),
            r.resseq_spec() == 1,
            r.chain_spec() == 'A',
    {
        Residue { atoms: Vec::new(), name: String::new(), resseq: 1, chain_id: 'A' }
    }

    /// The records of `v` that share the full identity triple of its
    /// first record, under that identity; nothing for an empty `v`.
    #[verifier::loop_isolation(false)]
    pub fn from(v: Vec<T>) -> (r: Option<Self>)
        ensures
            v@.len() == 0 <==> r is None,
            r is Some ==> {
                let res = r->0;
                &&& res.atoms_spec() == v@.filter(|t: T| same_triple(v@[0], t))
                &&& res.name_spec() == v@[0].residue_name_spec()
                &&& res.resseq_spec() == v@[0].residue_number_spec()
                &&& res.chain_spec() == v@[0].chain_id_spec()
            },
    {
        if v.len() == 0 {
            return None;
        }
        let ghost orig = v@;
        let ghost pred = |t: T| same_triple(orig[0], t);
        let rep_name = v[0].residue_name();
        let rep_resseq = v[0].residue_number();
        let rep_chain = v[0].chain_id();
        let mut v = v;
        let mut res: Vec<T> = Vec::new();
        let ghost mut k: int = 0;
        proof {
            assert(orig.subrange(0, 0).filter(pred) =~= Seq::<T>::empty()) by {
                reveal(Seq::filter);
                assert(orig.subrange(0, 0) =~= Seq::<T>::empty());
            }
        }
        while v.len() > 0
            invariant
                0 <= k <= orig.len(),
                v@ == orig.subrange(k, orig.len() as int),
                res@ == orig.subrange(0, k).filter(pred),
                rep_name@ == orig[0].residue_name_spec(),
                rep_resseq == orig[0].residue_number_spec(),
                rep_chain == orig[0].chain_id_spec(),
            decreases v@.len(),
        {
            let e = v.remove(0);
            proof {
                assert(e == orig[k]);
                assert(v@ =~= orig.subrange(k + 1, orig.len() as int));
            }
            let nm = e.residue_name();
            let rs = e.residue_number();
            let ch = e.chain_id();
            let keep = nm == rep_name && rs == rep_resseq && ch == rep_chain;
            proof {
                assert(nm@ == orig[k].residue_name_spec());
                assert(keep == same_triple(orig[0], orig[k]));
                assert(pred(orig[k]) == same_triple(orig[0], orig[k]));
                assert(keep == pred(orig[k]));
                assert(orig.subrange(0, k + 1) =~= orig.subrange(0, k) + seq![orig[k]]);
                lemma_filter_push(orig.subrange(0, k), pred, orig[k]);
            }
            if keep {
                res.push(e);
            }
            proof {
                k = k + 1;
            }
        }
        proof {
            assert(orig.subrange(0, orig.len() as int) =~= orig);
        }
        Some(Residue { atoms: res, name: rep_name, resseq: rep_resseq, chain_id: rep_chain })
    }

    /// All records of `v`, under the identity of its first record; an
    /// empty `v` gives the default identity.
    pub fn from_iter(v: Vec<T>) -> (r: Self)
        ensures
            r.atoms_spec() == v@,
            v@.len() == 0 ==> r.name_spec() == Seq::<char>::empty() && r.resseq_spec() == 1
                && r.chain_spec() == 'A',
            v@.len() > 0 ==> r.name_spec() == v@[0].residue_name_spec() && r.resseq_spec()
                == v@[0].residue_number_spec() && r.chain_spec() == v@[0].chain_id_spec(),
    {
        if v.len() == 0 {
            Residue { atoms: v, name: String::new(), resseq: 1, chain_id: 'A' }
        } else {
            let name = v[0].residue_name();
            let resseq = v[0].residue_number();
            let chain_id = v[0].chain_id();
            Residue { atoms: v, name, resseq, chain_id }
        }
    }

    /// Appends the records of `other` that share this residue's stored
    /// name and chain; while this residue is still empty, the next
    /// record is taken in unconditionally, though the stored identity
    /// is not revised.
    #[verifier::loop_isolation(false)]
    pub fn extend(&mut self, other: Vec<T>)
        ensures
            final(self).name_spec() == old(self).name_spec(),
            final(self).resseq_spec() == old(self).resseq_spec(),
            final(self).chain_spec() == old(self).chain_spec(),
            old(self).atoms_spec().len() > 0 ==> final(self).atoms_spec() == old(self).atoms_spec()
                + other@.filter(
                |t: T|
                    t.residue_name_spec() == old(self).name_spec() && t.chain_id_spec() == old(self).chain_spec(),
            ),
            old(self).atoms_spec().len() == 0 && other@.len() == 0 ==> final(self).atoms_spec() == old(self).atoms_spec(),
            old(self).atoms_spec().len() == 0 && other@.len() > 0 ==> final(self).atoms_spec() == seq![
                other@[0],
            ] + other@.subrange(1, other@.len() as int).filter(
                |t: T|
                    t.residue_name_spec() == old(self).name_spec() && t.chain_id_spec() == old(self).chain_spec(),
            ),
    {
        let ghost orig = other@;
        let ghost base = self.atoms@;
        let ghost pred = |t: T|
            t.residue_name_spec() == old(self).name_spec() && t.chain_id_spec() == old(self).chain_spec();
        let mut other = other;
        let ghost mut k: int = 0;
        proof {
            assert(orig.subrange(0, 0).filter(pred) =~= Seq::<T>::empty()) by {
                reveal(Seq::filter);
                assert(orig.subrange(0, 0) =~= Seq::<T>::empty());
            }
        }
        while other.len() > 0
            invariant
                0 <= k <= orig.len(),
                other@ == orig.subrange(k, orig.len() as int),
                self.name@ == old(self).name_spec(),
                self.resseq == old(self).resseq_spec(),
                self.chain_id == old(self).chain_spec(),
                base == old(self).atoms@,
                base.len() > 0 ==> self.atoms@ == base + orig.subrange(0, k).filter(pred),
                base.len() == 0 && k == 0 ==> self.atoms@ == base,
                base.len() == 0 && k > 0 ==> self.atoms@ == seq![orig[0]] + orig.subrange(
                    1,
                    k,
                ).filter(pred),
            decreases other@.len(),
        {
            let e = other.remove(0);
            proof {
                assert(e == orig[k]);
                assert(other@ =~= orig.subrange(k + 1, orig.len() as int));
            }
            let nm = e.residue_name();
            let ch = e.chain_id();
            let here = self.name.clone();
            let matches_key = nm == here && ch == self.chain_id;
            proof {
                assert(nm@ == orig[k].residue_name_spec());
                assert(here@ == old(self).name_spec());
                assert(matches_key == pred(orig[k]));
                if base.len() > 0 || k > 0 {
                    let lo: int = if base.len() > 0 {
                        0
                    } else {
                        1
                    };
                    assert(orig.subrange(lo, k + 1) =~= orig.subrange(lo, k) + seq![orig[k]]);
                    lemma_filter_push(orig.subrange(lo, k), pred, orig[k]);
                }
            }
            if matches_key || self.atoms.len() == 0 {
                self.atoms.push(e);
            }
            proof {
                k = k + 1;
                if base.len() == 0 && k == 1 {
                    assert(self.atoms@ =~= seq![orig[0]] + orig.subrange(1, 1).filter(pred))
                        by {
                        reveal(Seq::filter);
                        assert(orig.subrange(1, 1) =~= Seq::<T>::empty());
                    }
                }
            }
        }
        proof {
            assert(orig.subrange(0, orig.len() as int) =~= orig);
            if orig.len() > 0 {
                assert(orig.subrange(1, orig.len() as int) =~= orig.subrange(
                    1,
                    orig.len() as int,
                ));
            }
        }
    }
}

impl<T: AtomData> ResidueData for Residue<T> {
    open spec fn residue_name_spec(&self) -> Seq<char> {
        self.name_spec()
    }

    open spec fn residue_number_spec(&self) -> i32 {
        self.resseq_spec()
    }

    open spec fn chain_id_spec(&self) -> char {
        self.chain_spec()
    }

    fn residue_name(&self) -> String {
        self.name.clone()
    }

    fn residue_number(&self) -> i32 {
        self.resseq
    }

    fn chain_id(&self) -> char {
        self.chain_id
    }
}

} // verus!
