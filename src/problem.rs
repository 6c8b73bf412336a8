use vstd::prelude::*;

verus! {

/// One place a job part is served at: a location on the line of locations, a
/// service duration, a time window and the load it picks up.
#[derive(Clone, Copy, Debug, PartialEq, Eq, Structural)]
pub struct Place {
    pub location: u64,
    pub duration: u64,
    pub tw_start: u64,
    pub tw_end: u64,
    pub demand: u64,
}

/// A job: a Single job has one part, a Multi job several, which are served
/// together, one after another, in one of the listed orders.
#[derive(Clone, Debug)]
pub struct Job {
    pub id: u64,
    pub parts: Vec<Place>,
    /// The legal orders of the parts, each a permutation of the part indices.
    pub permutations: Vec<Vec<usize>>,
}

/// A vehicle with its driver: where and when it starts, and how much it carries.
#[derive(Clone, Copy, Debug, PartialEq, Eq, Structural)]
pub struct Actor {
    pub location: u64,
    pub start: u64,
    pub capacity: u64,
}

#[derive(Clone, Debug)]
pub struct Problem {
    pub actors: Vec<Actor>,
    pub jobs: Vec<Job>,
}

/// Travel time between two locations.
pub open spec fn travel(a: u64, b: u64) -> int {
    if a > b { a - b } else { b - a }
}

pub fn travel_time(a: u64, b: u64) -> (r: u64)
    ensures
        r == travel(a, b),
{
    if a > b { a - b } else { b - a }
}

pub open spec fn is_permutation(perm: Seq<usize>, n: int) -> bool {
    &&& perm.len() == n
    &&& forall|i: int| 0 <= i < n ==> #[trigger] perm[i] < n
    &&& forall|i: int, j: int| 0 <= i < j < n ==> perm[i] != perm[j]
}

impl Job {
    /// A Multi job whose parts may be served in any of the given orders; `None`
    /// unless there is a part, an order, and each order is a permutation of
    /// the part indices.
    pub fn multi_with_permutations(id: u64, parts: Vec<Place>, permutations: Vec<Vec<usize>>) -> (r: Option<Job>)
        ensures
            r is Some <==> parts@.len() > 0 && permutations@.len() > 0 && forall|k: int|
                0 <= k < permutations@.len() ==> is_permutation(#[trigger] permutations@[k]@, parts@.len() as int),
            r matches Some(job) ==> job.wf() && job.id == id && job.parts@ == parts@ && job.permutations@ == permutations@,
    {
        if parts.len() == 0 || permutations.len() == 0 {
            return None;
        }
        let mut k: usize = 0;
        while k < permutations.len()
            invariant
                k <= permutations@.len(),
                forall|a: int| 0 <= a < k ==> is_permutation(#[trigger] permutations@[a]@, parts@.len() as int),
            decreases permutations@.len() - k,
        {
            if !check_permutation(&permutations[k], parts.len()) {
                return None;
            }
            k = k + 1;
        }
        Some(Job { id, parts, permutations })
    }

    pub open spec fn wf(&self) -> bool {
        &&& self.parts@.len() > 0
        &&& self.permutations@.len() > 0
        &&& forall|k: int| 0 <= k < self.permutations@.len()
            ==> is_permutation(#[trigger] self.permutations@[k]@, self.parts@.len() as int)
    }

    /// The job's places in the order of its `k`-th permutation.
    pub open spec fn ordered(&self, k: int) -> Seq<Place> {
        self.permutations@[k]@.map_values(|i: usize| self.parts@[i as int])
    }

    /// A Single job, served at one place.
    pub fn single(id: u64, place: Place) -> (r: Job)
        ensures
            r.wf(),
            r.id == id,
            r.parts@ == seq![place],
            r.permutations@.len() == 1,
            r.ordered(0) == seq![place],
    {
        let r = Job { id, parts: vec![place], permutations: vec![vec![0usize]] };
        assert(r.ordered(0) =~= seq![place]);
        r
    }

    /// A Multi job whose parts may be served in the given order only.
    pub fn multi(id: u64, parts: Vec<Place>) -> (r: Job)
        requires
            parts@.len() > 0,
        ensures
            r.wf(),
            r.id == id,
            r.parts@ == parts@,
            r.permutations@.len() == 1,
            r.ordered(0) == parts@,
    {
        let n = parts.len();
        let mut identity: Vec<usize> = Vec::new();
        let mut i: usize = 0;
        while i < n
            invariant
                i <= n,
                identity@.len() == i,
                forall|k: int| 0 <= k < i ==> identity@[k] == k,
            decreases n - i,
        {
            identity.push(i);
            i = i + 1;
        }
        let r = Job { id, parts, permutations: vec![identity] };
        assert(r.ordered(0) =~= r.parts@);
        r
    }
}

/// Whether `perm` orders `n` parts: each index below `n` once.
pub fn check_permutation(perm: &Vec<usize>, n: usize) -> (r: bool)
    ensures
        r == is_permutation(perm@, n as int),
{
    if perm.len() != n {
        return false;
    }
    let mut i: usize = 0;
    while i < n
        invariant
            perm@.len() == n,
            i <= n,
            forall|a: int| 0 <= a < i ==> #[trigger] perm@[a] < n,
            forall|a: int, b: int| 0 <= a < b < n && a < i ==> perm@[a] != perm@[b],
        decreases n - i,
    {
        if perm[i] >= n {
            return false;
        }
        let mut k: usize = i + 1;
        while k < n
            invariant
                perm@.len() == n,
                i < n,
                i < k <= n,
                forall|b: int| i < b < k ==> perm@[i as int] != #[trigger] perm@[b],
            decreases n - k,
        {
            if perm[i] == perm[k] {
                return false;
            }
            k = k + 1;
        }
        i = i + 1;
    }
    true
}

impl Problem {
    pub open spec fn wf(&self) -> bool {
        forall|j: int| 0 <= j < self.jobs@.len() ==> #[trigger] self.jobs@[j].wf()
    }
}

} // verus!
