use vstd::prelude::*;
use vstd::string::StrSliceExecFns;

verus! {

/// `prefix` is an initial segment of `s`.
pub open spec fn is_prefix(prefix: Seq<char>, s: Seq<char>) -> bool {
    prefix.len() <= s.len() && s.subrange(0, prefix.len() as int) == prefix
}

/// `path` lies under directory `dir`: the directory's path followed by the
/// separator is an initial segment of `path`. This is the textual test the
/// scanner uses to decide which recorded directories a file's size goes to.
pub open spec fn lies_under(dir: Seq<char>, sep: char, path: Seq<char>) -> bool {
    is_prefix(dir.push(sep), path)
}

/// What visiting a directory does to the recorded totals: the directory enters
/// the mapping with total 0. A revisit resets the total to 0; a well-formed
/// walk never revisits, so nothing is lost.
pub open spec fn visit_step(m: Map<Seq<char>, u64>, path: Seq<char>) -> Map<Seq<char>, u64> {
    m.insert(path, 0)
}

/// Whether adding a file of `size` bytes at `path` would push the total of
/// some directory the file lies under past `u64::MAX`.
pub open spec fn record_overflows(
    m: Map<Seq<char>, u64>,
    sep: char,
    path: Seq<char>,
    size: u64,
) -> bool {
    exists|d: Seq<char>|
        m.dom().contains(d) && lies_under(d, sep, path) && m[d] + size > u64::MAX
}

/// What recording a file of `size` bytes at `path` does to the totals: every
/// recorded directory that the file lies under gains `size`; every other
/// directory keeps its total. No directory enters or leaves the mapping.
pub open spec fn record_step(
    m: Map<Seq<char>, u64>,
    sep: char,
    path: Seq<char>,
    size: u64,
) -> Map<Seq<char>, u64> {
    Map::new(
        |d: Seq<char>| m.dom().contains(d),
        |d: Seq<char>|
            if lies_under(d, sep, path) {
                (m[d] + size) as u64
            } else {
                m[d]
            },
    )
}

/// Character-for-character equality of two string slices.
pub fn str_eq(a: &str, b: &str) -> (r: bool)
    ensures
        r == (a@ == b@),
{
    let alen = a.unicode_len();
    let blen = b.unicode_len();
    if alen != blen {
        return false;
    }
    let mut i: usize = 0;
    while i < alen
        invariant
            i <= alen,
            alen == a@.len(),
            alen == b@.len(),
            forall|j: int| 0 <= j < i ==> a@[j] == b@[j],
        decreases alen - i,
    {
        if a.get_char(i) != b.get_char(i) {
            return false;
        }
        i += 1;
    }
    proof {
        assert(a@ =~= b@);
    }
    true
}

/// Whether `path` lies under the directory `dir`, as `lies_under` defines it.
pub fn lies_under_exec(dir: &str, sep: char, path: &str) -> (r: bool)
    ensures
        r == lies_under(dir@, sep, path@),
{
    let dlen = dir.unicode_len();
    let plen = path.unicode_len();
    if dlen >= plen {
        return false;
    }
    let mut i: usize = 0;
    while i < dlen
        invariant
            i <= dlen,
            dlen == dir@.len(),
            plen == path@.len(),
            dlen < plen,
            forall|j: int| 0 <= j < i ==> path@[j] == dir@[j],
        decreases dlen - i,
    {
        if path.get_char(i) != dir.get_char(i) {
            proof {
                assert(!is_prefix(dir@.push(sep), path@)) by {
                    if is_prefix(dir@.push(sep), path@) {
                        assert(path@.subrange(0, dir@.len() as int + 1)[i as int] == dir@.push(sep)[i as int]);
                    }
                }
            }
            return false;
        }
        i += 1;
    }
    if path.get_char(dlen) != sep {
        proof {
            assert(!is_prefix(dir@.push(sep), path@)) by {
                if is_prefix(dir@.push(sep), path@) {
                    assert(path@.subrange(0, dir@.len() as int + 1)[dlen as int] == dir@.push(sep)[dlen as int]);
                }
            }
        }
        return false;
    }
    proof {
        assert(path@.subrange(0, dir@.len() as int + 1) =~= dir@.push(sep));
    }
    true
}

/// The running per-directory byte totals of one scan: each directory visited
/// so far, with the bytes of every file recorded so far that lies under it.
/// Replaces the original's unordered hash mapping with an insertion-ordered
/// list whose keys are kept unique.
pub struct Accumulator {
    sep: char,
    dirs: Vec<String>,
    totals: Vec<u64>,
}

impl Accumulator {
    /// The separator that ends a directory prefix when paths are matched.
    pub closed spec fn separator(&self) -> char {
        self.sep
    }

    /// The recorded directory paths, in the order first visited.
    pub closed spec fn dir_paths(&self) -> Seq<Seq<char>> {
        self.dirs.deep_view()
    }

    /// The recorded totals, positionally matching `dir_paths`.
    pub closed spec fn dir_totals(&self) -> Seq<u64> {
        self.totals@
    }

    /// Well-formed: one total per directory, and no directory recorded twice.
    pub open spec fn wf(&self) -> bool {
        &&& self.dir_paths().len() == self.dir_totals().len()
        &&& forall|i: int, j: int|
            0 <= i < j < self.dir_paths().len() ==> self.dir_paths()[i] != self.dir_paths()[j]
    }

    /// Some position records the directory `d`.
    pub open spec fn has_dir(&self, d: Seq<char>) -> bool {
        exists|i: int| 0 <= i < self.dir_paths().len() && self.dir_paths()[i] == d
    }

    /// The position that records the directory `d`.
    pub open spec fn position_of(&self, d: Seq<char>) -> int {
        choose|i: int| 0 <= i < self.dir_paths().len() && self.dir_paths()[i] == d
    }

    /// The accumulator read as the mapping it stands for, from directory path
    /// to running byte total.
    pub open spec fn as_map(&self) -> Map<Seq<char>, u64> {
        Map::new(
            |d: Seq<char>| self.has_dir(d),
            |d: Seq<char>| self.dir_totals()[self.position_of(d)],
        )
    }

    /// A recorded directory stands at exactly one position, and `position_of`
    /// finds it.
    pub proof fn lemma_position_of(&self, d: Seq<char>)
        requires
            self.wf(),
            self.has_dir(d),
        ensures
            0 <= self.position_of(d) < self.dir_paths().len(),
            self.dir_paths()[self.position_of(d)] == d,
            forall|j: int|
                0 <= j < self.dir_paths().len() && self.dir_paths()[j] == d ==> j
                    == self.position_of(d),
    {
        let i = self.position_of(d);
        assert(0 <= i < self.dir_paths().len() && self.dir_paths()[i] == d);
    }

    /// A fresh accumulator: no directory recorded yet.
    pub fn new(sep: char) -> (r: Accumulator)
        ensures
            r.wf(),
            r.separator() == sep,
            r.dir_paths() == Seq::<Seq<char>>::empty(),
            r.as_map() == Map::<Seq<char>, u64>::empty(),
    {
        let r = Accumulator { sep, dirs: Vec::new(), totals: Vec::new() };
        proof {
            assert(r.dir_paths() =~= Seq::<Seq<char>>::empty());
            assert(r.as_map() =~= Map::<Seq<char>, u64>::empty());
        }
        r
    }

    /// The position at which `path` is recorded, if it is.
    fn find(&self, path: &str) -> (r: Option<usize>)
        requires
            self.wf(),
        ensures
            match r {
                Some(i) => 0 <= i < self.dir_paths().len() && self.dir_paths()[i as int] == path@,
                None => !self.has_dir(path@),
            },
    {
        let mut i: usize = 0;
        while i < self.dirs.len()
            invariant
                self.wf(),
                i <= self.dirs.len(),
                forall|j: int| 0 <= j < i ==> self.dir_paths()[j] != path@,
            decreases self.dirs.len() - i,
        {
            if str_eq(self.dirs[i].as_str(), path) {
                return Some(i);
            }
            i += 1;
        }
        None
    }

    /// Record a visit of the directory `path`: it enters the totals with 0, as
    /// `visit_step` says. A path seen before keeps its position; a new one is
    /// appended.
    pub fn visit_dir(&mut self, path: String)
        requires
            old(self).wf(),
        ensures
            final(self).wf(),
            final(self).separator() == old(self).separator(),
            final(self).dir_paths() == if old(self).has_dir(path@) {
                old(self).dir_paths()
            } else {
                old(self).dir_paths().push(path@)
            },
            final(self).as_map() == visit_step(old(self).as_map(), path@),
    {
        let found = self.find(path.as_str());
        match found {
            Some(i) => {
                self.totals[i] = 0;
                proof {
                    assert(self.dir_paths() =~= old(self).dir_paths());
                    old(self).lemma_position_of(path@);
                    assert forall|d: Seq<char>| self.has_dir(d) implies old(self).has_dir(d) by {}
                    assert forall|d: Seq<char>|
                        self.as_map().dom().contains(d) implies visit_step(
                        old(self).as_map(),
                        path@,
                    ).dom().contains(d) && self.as_map()[d] == visit_step(
                        old(self).as_map(),
                        path@,
                    )[d] by {
                        self.lemma_position_of(d);
                        old(self).lemma_position_of(d);
                        if d == path@ {
                            assert(self.position_of(d) == i);
                        }
                    }
                    assert(self.as_map() =~= visit_step(old(self).as_map(), path@));
                }
            },
            None => {
                let ghost pre = *self;
                self.dirs.push(path);
                self.totals.push(0);
                proof {
                    assert(self.dir_paths() =~= pre.dir_paths().push(path@));
                    let n = pre.dir_paths().len() as int;
                    assert forall|d: Seq<char>|
                        self.has_dir(d) == (pre.has_dir(d) || d == path@) by {
                        if self.has_dir(d) {
                            let i = choose|i: int|
                                0 <= i < self.dir_paths().len() && self.dir_paths()[i] == d;
                            if i < n {
                                assert(pre.dir_paths()[i] == d);
                            }
                        }
                        if pre.has_dir(d) {
                            let i = choose|i: int|
                                0 <= i < pre.dir_paths().len() && pre.dir_paths()[i] == d;
                            assert(self.dir_paths()[i] == d);
                        }
                        if d == path@ {
                            assert(self.dir_paths()[n] == d);
                        }
                    }
                    assert forall|d: Seq<char>| self.has_dir(d) implies self.as_map()[d]
                        == visit_step(pre.as_map(), path@)[d] by {
                        self.lemma_position_of(d);
                        if d == path@ {
                            assert(self.dir_paths()[n] == d);
                            assert(self.position_of(d) == n);
                        } else {
                            assert(pre.has_dir(d));
                            pre.lemma_position_of(d);
                            assert(self.position_of(d) == pre.position_of(d));
                        }
                    }
                    assert(self.as_map() =~= visit_step(pre.as_map(), path@));
                }
            },
        }
    }

    /// Record a file of `size` bytes at `path`: every directory recorded so far
    /// that the file lies under gains `size`, as `record_step` says. Returns
    /// false, changing nothing, exactly when some such total would pass
    /// `u64::MAX`.
    pub fn record_file(&mut self, path: &str, size: u64) -> (r: bool)
        requires
            old(self).wf(),
        ensures
            final(self).wf(),
            final(self).separator() == old(self).separator(),
            final(self).dir_paths() == old(self).dir_paths(),
            r == !record_overflows(old(self).as_map(), old(self).separator(), path@, size),
            r ==> final(self).as_map() == record_step(
                old(self).as_map(),
                old(self).separator(),
                path@,
                size,
            ),
            !r ==> final(self).dir_totals() == old(self).dir_totals(),
    {
        let ghost pre = *self;
        let n = self.dirs.len();
        let mut i: usize = 0;
        while i < n
            invariant
                self.separator() == pre.separator(),
                self.dir_paths() == pre.dir_paths(),
                self.dir_totals() == pre.dir_totals(),
                self.dirs == pre.dirs,
                pre.wf(),
                n == pre.dir_paths().len(),
                i <= n,
                forall|j: int|
                    0 <= j < i && lies_under(pre.dir_paths()[j], pre.separator(), path@)
                        ==> pre.dir_totals()[j] + size <= u64::MAX,
            decreases n - i,
        {
            if lies_under_exec(self.dirs[i].as_str(), self.sep, path) {
                if self.totals[i] > u64::MAX - size {
                    proof {
                        pre.lemma_position_of(pre.dir_paths()[i as int]);
                        assert(record_overflows(pre.as_map(), pre.separator(), path@, size)) by {
                            let d = pre.dir_paths()[i as int];
                            assert(pre.as_map().dom().contains(d));
                            assert(pre.as_map()[d] == pre.dir_totals()[i as int]);
                        }
                    }
                    return false;
                }
            }
            i += 1;
        }
        proof {
            assert(!record_overflows(pre.as_map(), pre.separator(), path@, size)) by {
                assert forall|d: Seq<char>|
                    pre.as_map().dom().contains(d) && lies_under(d, pre.separator(), path@)
                        implies pre.as_map()[d] + size <= u64::MAX by {
                    pre.lemma_position_of(d);
                }
            }
        }
        let mut k: usize = 0;
        while k < n
            invariant
                pre.wf(),
                self.wf(),
                self.separator() == pre.separator(),
                self.dir_paths() == pre.dir_paths(),
                n == pre.dir_paths().len(),
                k <= n,
                forall|j: int|
                    0 <= j < n && lies_under(pre.dir_paths()[j], pre.separator(), path@)
                        ==> pre.dir_totals()[j] + size <= u64::MAX,
                forall|j: int|
                    0 <= j < k ==> self.dir_totals()[j] == if lies_under(
                        pre.dir_paths()[j],
                        pre.separator(),
                        path@,
                    ) {
                        (pre.dir_totals()[j] + size) as u64
                    } else {
                        pre.dir_totals()[j]
                    },
                forall|j: int| k <= j < n ==> self.dir_totals()[j] == pre.dir_totals()[j],
            decreases n - k,
        {
            if lies_under_exec(self.dirs[k].as_str(), self.sep, path) {
                let t = self.totals[k];
                proof {
                    assert(self.dir_paths()[k as int] == self.dirs@[k as int]@);
                    assert(lies_under(pre.dir_paths()[k as int], pre.separator(), path@));
                    assert(t == pre.dir_totals()[k as int]);
                    assert(t + size <= u64::MAX);
                }
                self.totals[k] = t + size;
                proof {
                    assert(self.dir_paths() =~= pre.dir_paths());
                }
            }
            k += 1;
        }
        proof {
            assert forall|d: Seq<char>| self.has_dir(d) implies self.as_map()[d] == record_step(
                pre.as_map(),
                pre.separator(),
                path@,
                size,
            )[d] by {
                self.lemma_position_of(d);
                pre.lemma_position_of(d);
            }
            assert(self.as_map() =~= record_step(pre.as_map(), pre.separator(), path@, size));
        }
        true
    }

    /// How many directories are recorded.
    pub fn len(&self) -> (r: usize)
        ensures
            r == self.dir_paths().len(),
    {
        self.dirs.len()
    }

    /// The directory path recorded at position `i`.
    pub fn path_at(&self, i: usize) -> (r: &String)
        requires
            self.wf(),
            i < self.dir_paths().len(),
        ensures
            r@ == self.dir_paths()[i as int],
    {
        &self.dirs[i]
    }

    /// The running total recorded at position `i`.
    pub fn total_at(&self, i: usize) -> (r: u64)
        requires
            self.wf(),
            i < self.dir_paths().len(),
        ensures
            r == self.dir_totals()[i as int],
            self.as_map().dom().contains(self.dir_paths()[i as int]) && r == self.as_map()[
                self.dir_paths()[i as int]
            ],
    {
        proof {
            self.lemma_position_of(self.dir_paths()[i as int]);
        }
        self.totals[i]
    }

    /// The recorded total of the directory `path`, if it was visited.
    pub fn total_of(&self, path: &str) -> (r: Option<u64>)
        requires
            self.wf(),
        ensures
            r == if self.as_map().dom().contains(path@) {
                Some(self.as_map()[path@])
            } else {
                None::<u64>
            },
    {
        let found = self.find(path);
        match found {
            Some(i) => {
                proof {
                    self.lemma_position_of(path@);
                }
                Some(self.totals[i])
            },
            None => None,
        }
    }
}

} // verus!
