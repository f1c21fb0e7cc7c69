use vstd::prelude::*;

use crate::value::{Value, ValueV};

verus! {

broadcast use vstd::std_specs::vec::group_vec_axioms;

/// One scope: the scope it sits in (an index among the interpreter's scopes),
/// and its bindings, each name bound at most once.
#[derive(Debug)]
pub struct Env {
    pub parent: Option<usize>,
    pub bucket: Vec<(String, Value)>,
}

/// The mathematical content of a scope.
pub struct FrameV {
    pub parent: Option<nat>,
    pub bucket: Seq<(Seq<char>, ValueV)>,
}

pub open spec fn binding_view(b: (String, Value)) -> (Seq<char>, ValueV) {
    (b.0@, b.1.view())
}

pub open spec fn bucket_view(b: Seq<(String, Value)>) -> Seq<(Seq<char>, ValueV)> {
    Seq::new(b.len(), |i: int| binding_view(b[i]))
}

impl Env {
    pub open spec fn view(&self) -> FrameV {
        FrameV {
            parent: match self.parent {
                Some(p) => Some(p as nat),
                None => None,
            },
            bucket: bucket_view(self.bucket@),
        }
    }
}

pub open spec fn frames_view(fs: Seq<Env>) -> Seq<FrameV> {
    Seq::new(fs.len(), |i: int| fs[i].view())
}

/// The first position at or after `j` where `k` is bound.
pub open spec fn find_key(b: Seq<(Seq<char>, ValueV)>, k: Seq<char>, j: nat) -> Option<nat>
    decreases b.len() - j,
{
    if j >= b.len() {
        None
    } else if b[j as int].0 == k {
        Some(j)
    } else {
        find_key(b, k, j + 1)
    }
}

/// The value that `k` is bound to in a scope's bindings.
pub open spec fn bucket_get(b: Seq<(Seq<char>, ValueV)>, k: Seq<char>) -> Option<ValueV> {
    match find_key(b, k, 0) {
        Some(j) => Some(b[j as int].1),
        None => None,
    }
}

/// The bindings with `k` bound to `v`: in place where `k` was bound, else added.
pub open spec fn bucket_put(b: Seq<(Seq<char>, ValueV)>, k: Seq<char>, v: ValueV) -> Seq<(Seq<char>, ValueV)> {
    match find_key(b, k, 0) {
        Some(j) => b.update(j as int, (k, v)),
        None => b.push((k, v)),
    }
}

/// What `k` means in scope `i`: its binding there, else in the scopes around
/// it, following at most `n` links to an enclosing scope.
pub open spec fn lookup_within(fs: Seq<FrameV>, i: nat, k: Seq<char>, n: nat) -> Option<ValueV>
    decreases n,
{
    if i >= fs.len() {
        None
    } else {
        match bucket_get(fs[i as int].bucket, k) {
            Some(v) => Some(v),
            None => match fs[i as int].parent {
                Some(p) => if n > 0 { lookup_within(fs, p, k, (n - 1) as nat) } else { None },
                None => None,
            },
        }
    }
}

/// What `k` means in scope `i`: its binding there, else in the enclosing
/// scopes, in whatever order the scopes are stored. A chain of enclosing
/// scopes that visits no scope twice has fewer links than there are scopes,
/// so the walk follows it to its end.
pub open spec fn lookup(fs: Seq<FrameV>, i: nat, k: Seq<char>) -> Option<ValueV> {
    lookup_within(fs, i, k, fs.len())
}

/// The scopes after `k` is rebound to `v` in the nearest scope from `i`
/// outward, following at most `n` links, that binds it; `None` where none does.
pub open spec fn assign_within(fs: Seq<FrameV>, i: nat, k: Seq<char>, v: ValueV, n: nat) -> Option<Seq<FrameV>>
    decreases n,
{
    if i >= fs.len() {
        None
    } else if find_key(fs[i as int].bucket, k, 0) is Some {
        Some(define_at(fs, i, k, v))
    } else {
        match fs[i as int].parent {
            Some(p) => if n > 0 { assign_within(fs, p, k, v, (n - 1) as nat) } else { None },
            None => None,
        }
    }
}

/// The scopes after `k` is rebound to `v` in the nearest scope from `i` outward
/// that binds it; `None` where no scope does.
pub open spec fn assign_at(fs: Seq<FrameV>, i: nat, k: Seq<char>, v: ValueV) -> Option<Seq<FrameV>> {
    assign_within(fs, i, k, v, fs.len())
}

/// `k` bound to `v` in scope `i` itself.
pub open spec fn define_at(fs: Seq<FrameV>, i: nat, k: Seq<char>, v: ValueV) -> Seq<FrameV> {
    fs.update(i as int, FrameV { parent: fs[i as int].parent, bucket: bucket_put(fs[i as int].bucket, k, v) })
}

/// The names bound in a scope, in the order they were first bound.
pub open spec fn bucket_names(b: Seq<(Seq<char>, ValueV)>) -> Seq<Seq<char>> {
    Seq::new(b.len(), |j: int| b[j].0)
}

/// A function value refers to an existing scope.
pub open spec fn value_wf(v: ValueV, n: nat) -> bool {
    match v {
        ValueV::Fn(_, _, _, e) => e < n,
        _ => true,
    }
}

/// Every scope sits in an earlier one (as the interpreter lays them out).
pub open spec fn parents_before(fs: Seq<FrameV>) -> bool {
    forall|i: int| 0 <= i < fs.len() ==> match #[trigger] fs[i].parent {
        Some(p) => p < i,
        None => true,
    }
}

/// Every scope sits in an earlier one, and every function value stored refers
/// to an existing scope.
pub open spec fn frames_wf(fs: Seq<FrameV>) -> bool {
    &&& parents_before(fs)
    &&& forall|i: int, j: int| 0 <= i < fs.len() && 0 <= j < fs[i].bucket.len()
        ==> value_wf(#[trigger] fs[i].bucket[j].1, fs.len())
}

pub proof fn lemma_find_key(b: Seq<(Seq<char>, ValueV)>, k: Seq<char>, j: nat)
    ensures
        find_key(b, k, j) matches Some(x) ==> j <= x < b.len() && b[x as int].0 == k,
    decreases b.len() - j,
{
    if j < b.len() && b[j as int].0 != k {
        lemma_find_key(b, k, j + 1);
    }
}

proof fn lemma_lookup_within_wf(fs: Seq<FrameV>, i: nat, k: Seq<char>, n: nat)
    requires
        frames_wf(fs),
    ensures
        lookup_within(fs, i, k, n) matches Some(v) ==> value_wf(v, fs.len()),
    decreases n,
{
    if i < fs.len() {
        lemma_find_key(fs[i as int].bucket, k, 0);
        match find_key(fs[i as int].bucket, k, 0) {
            Some(j) => {
                assert(value_wf(fs[i as int].bucket[j as int].1, fs.len()));
            },
            None => {
                match fs[i as int].parent {
                    Some(p) => if n > 0 {
                        lemma_lookup_within_wf(fs, p, k, (n - 1) as nat);
                    },
                    None => {},
                }
            },
        }
    }
}

pub proof fn lemma_lookup_wf(fs: Seq<FrameV>, i: nat, k: Seq<char>)
    requires
        frames_wf(fs),
    ensures
        lookup(fs, i, k) matches Some(v) ==> value_wf(v, fs.len()),
{
    lemma_lookup_within_wf(fs, i, k, fs.len());
}

pub proof fn lemma_put_wf(fs: Seq<FrameV>, i: nat, k: Seq<char>, v: ValueV)
    requires
        frames_wf(fs),
        i < fs.len(),
        value_wf(v, fs.len()),
    ensures
        frames_wf(define_at(fs, i, k, v)),
{
    lemma_find_key(fs[i as int].bucket, k, 0);
    let nf = define_at(fs, i, k, v);
    assert forall|a: int, j: int| 0 <= a < nf.len() && 0 <= j < nf[a].bucket.len()
        implies value_wf(#[trigger] nf[a].bucket[j].1, nf.len()) by {
        if a != i {
            assert(nf[a] == fs[a]);
        }
    }
}

pub proof fn lemma_assign_wf(fs: Seq<FrameV>, i: nat, k: Seq<char>, v: ValueV)
    requires
        frames_wf(fs),
        value_wf(v, fs.len()),
    ensures
        assign_at(fs, i, k, v) matches Some(nf) ==> frames_wf(nf) && nf.len() == fs.len(),
{
    law_assign_rebinds_nearest(fs, i, k, v);
    match assign_at(fs, i, k, v) {
        Some(nf) => {
            let q = choose|q: nat| q < fs.len() && nf == define_at(fs, q, k, v)
                && #[trigger] find_key(fs[q as int].bucket, k, 0) is Some
                && lookup(fs, i, k) == bucket_get(fs[q as int].bucket, k);
            lemma_put_wf(fs, q, k, v);
        },
        None => {},
    }
}

/// `find_key` looks at the names only.
proof fn lemma_find_key_same_names(b1: Seq<(Seq<char>, ValueV)>, b2: Seq<(Seq<char>, ValueV)>, k: Seq<char>, j: nat)
    requires
        b1.len() == b2.len(),
        forall|m: int| 0 <= m < b1.len() ==> #[trigger] b1[m].0 == b2[m].0,
    ensures
        find_key(b1, k, j) == find_key(b2, k, j),
    decreases b1.len() - j,
{
    if j < b1.len() {
        lemma_find_key_same_names(b1, b2, k, j + 1);
    }
}

/// `find_key` after a binding is added at the end.
proof fn lemma_find_key_push(b: Seq<(Seq<char>, ValueV)>, e: (Seq<char>, ValueV), k: Seq<char>, j: nat)
    requires
        j <= b.len(),
    ensures
        find_key(b.push(e), k, j) == match find_key(b, k, j) {
            Some(x) => Some(x),
            None => if e.0 == k { Some(b.len()) } else { None },
        },
    decreases b.len() - j,
{
    if j < b.len() {
        assert(b.push(e)[j as int] == b[j as int]);
        lemma_find_key_push(b, e, k, j + 1);
    } else {
        assert(b.push(e)[j as int] == e);
        assert(find_key(b.push(e), k, j + 1) is None);
    }
}

/// What a scope's bindings give for `k2` after `k` is bound to `v` in them.
pub proof fn lemma_bucket_put(b: Seq<(Seq<char>, ValueV)>, k: Seq<char>, v: ValueV, k2: Seq<char>)
    ensures
        bucket_get(bucket_put(b, k, v), k2) == if k2 == k { Some(v) } else { bucket_get(b, k2) },
{
    lemma_find_key(b, k, 0);
    match find_key(b, k, 0) {
        Some(j) => {
            let nb = b.update(j as int, (k, v));
            assert forall|m: int| 0 <= m < b.len() implies #[trigger] nb[m].0 == b[m].0 by {}
            lemma_find_key_same_names(nb, b, k2, 0);
            lemma_find_key(b, k2, 0);
            if k2 != k {
                match find_key(b, k2, 0) {
                    Some(x) => assert(x != j),
                    None => {},
                }
            }
        },
        None => {
            lemma_find_key_push(b, (k, v), k2, 0);
            lemma_find_key(b, k2, 0);
        },
    }
}

/// Where scopes sit in earlier ones, `lookup` from scope `j` reads the
/// scopes `0..=j` only.
proof fn lemma_lookup_prefix(fs1: Seq<FrameV>, fs2: Seq<FrameV>, j: nat, k: Seq<char>, n: nat)
    requires
        j < fs1.len(),
        j < fs2.len(),
        parents_before(fs1),
        forall|m: int| 0 <= m <= j ==> #[trigger] fs1[m] == fs2[m],
    ensures
        lookup_within(fs1, j, k, n) == lookup_within(fs2, j, k, n),
    decreases n,
{
    assert(fs1[j as int] == fs2[j as int]);
    match fs1[j as int].parent {
        Some(p) => if n > 0 {
            assert(p < j);
            lemma_lookup_prefix(fs1, fs2, p, k, (n - 1) as nat);
        },
        None => {},
    }
}

/// Reading a name right after binding it in a scope gives the value bound.
pub proof fn law_lookup_after_define(fs: Seq<FrameV>, i: nat, k: Seq<char>, v: ValueV)
    requires
        i < fs.len(),
    ensures
        lookup(define_at(fs, i, k, v), i, k) == Some(v),
{
    lemma_bucket_put(fs[i as int].bucket, k, v, k);
}

proof fn lemma_define_keeps_other_names(fs: Seq<FrameV>, i: nat, k: Seq<char>, v: ValueV, j: nat, k2: Seq<char>, n: nat)
    requires
        i < fs.len(),
        k2 != k,
    ensures
        lookup_within(define_at(fs, i, k, v), j, k2, n) == lookup_within(fs, j, k2, n),
    decreases n,
{
    let nf = define_at(fs, i, k, v);
    if j < fs.len() {
        assert(nf[j as int].parent == fs[j as int].parent);
        if j == i {
            lemma_bucket_put(fs[i as int].bucket, k, v, k2);
        } else {
            assert(nf[j as int] == fs[j as int]);
        }
        match fs[j as int].parent {
            Some(p) => if n > 0 {
                lemma_define_keeps_other_names(fs, i, k, v, p, k2, (n - 1) as nat);
            },
            None => {},
        }
    }
}

/// Binding a name changes what no other name means, from any scope.
pub proof fn law_define_keeps_other_names(fs: Seq<FrameV>, i: nat, k: Seq<char>, v: ValueV, j: nat, k2: Seq<char>)
    requires
        i < fs.len(),
        k2 != k,
    ensures
        lookup(define_at(fs, i, k, v), j, k2) == lookup(fs, j, k2),
{
    lemma_define_keeps_other_names(fs, i, k, v, j, k2, fs.len());
}

/// Where each scope sits in an earlier one, as the interpreter lays them
/// out, binding a name in a scope changes nothing seen from the scopes before
/// it, among them every scope it sits in: an inner binding shadows an outer
/// one without touching it.
pub proof fn law_define_keeps_earlier_scopes(fs: Seq<FrameV>, i: nat, k: Seq<char>, v: ValueV, j: nat, k2: Seq<char>)
    requires
        parents_before(fs),
        j < i < fs.len(),
    ensures
        lookup(define_at(fs, i, k, v), j, k2) == lookup(fs, j, k2),
{
    lemma_lookup_prefix(fs, define_at(fs, i, k, v), j, k2, fs.len());
}

proof fn lemma_assign_within(fs: Seq<FrameV>, i: nat, k: Seq<char>, v: ValueV, n: nat)
    ensures
        assign_within(fs, i, k, v, n) matches Some(nf) ==> exists|q: nat| q < fs.len()
            && nf == define_at(fs, q, k, v) && #[trigger] find_key(fs[q as int].bucket, k, 0) is Some
            && lookup_within(fs, i, k, n) == bucket_get(fs[q as int].bucket, k),
        (assign_within(fs, i, k, v, n) is None) == (lookup_within(fs, i, k, n) is None),
    decreases n,
{
    if i < fs.len() {
        lemma_find_key(fs[i as int].bucket, k, 0);
        if find_key(fs[i as int].bucket, k, 0) is Some {
            assert(find_key(fs[i as int].bucket, k, 0) is Some);
        } else {
            match fs[i as int].parent {
                Some(p) => if n > 0 {
                    lemma_assign_within(fs, p, k, v, (n - 1) as nat);
                },
                None => {},
            }
        }
    }
}

/// Assignment rebinds the name in one scope only: the nearest scope, from `i`
/// outward, that binds it, whose binding is the one the name means at `i`.
pub proof fn law_assign_rebinds_nearest(fs: Seq<FrameV>, i: nat, k: Seq<char>, v: ValueV)
    ensures
        assign_at(fs, i, k, v) matches Some(nf) ==> exists|q: nat| q < fs.len()
            && nf == define_at(fs, q, k, v) && #[trigger] find_key(fs[q as int].bucket, k, 0) is Some
            && lookup(fs, i, k) == bucket_get(fs[q as int].bucket, k),
{
    lemma_assign_within(fs, i, k, v, fs.len());
}

proof fn lemma_assign_lookup(fs: Seq<FrameV>, i: nat, k: Seq<char>, v: ValueV, n: nat)
    ensures
        assign_within(fs, i, k, v, n) matches Some(nf) ==> lookup_within(nf, i, k, n) == Some(v),
    decreases n,
{
    if i < fs.len() {
        lemma_find_key(fs[i as int].bucket, k, 0);
        if find_key(fs[i as int].bucket, k, 0) is Some {
            lemma_bucket_put(fs[i as int].bucket, k, v, k);
        } else {
            match fs[i as int].parent {
                Some(p) => if n > 0 {
                    let m = (n - 1) as nat;
                    lemma_assign_lookup(fs, p, k, v, m);
                    lemma_assign_within(fs, p, k, v, m);
                    match assign_within(fs, p, k, v, m) {
                        Some(nf) => {
                            let q = choose|q: nat| q < fs.len() && nf == define_at(fs, q, k, v)
                                && #[trigger] find_key(fs[q as int].bucket, k, 0) is Some
                                && lookup_within(fs, p, k, m) == bucket_get(fs[q as int].bucket, k);
                            assert(q != i);
                            assert(nf[i as int] == fs[i as int]);
                        },
                        None => {},
                    }
                },
                None => {},
            }
        }
    }
}

/// Assignment fails exactly where the name means nothing; where it succeeds,
/// the name then means the value assigned, and every other name means what
/// it meant before.
pub proof fn law_assign(fs: Seq<FrameV>, i: nat, k: Seq<char>, v: ValueV, k2: Seq<char>, j: nat)
    ensures
        (assign_at(fs, i, k, v) is None) == (lookup(fs, i, k) is None),
        assign_at(fs, i, k, v) matches Some(nf) ==> lookup(nf, i, k) == Some(v)
            && (k2 != k ==> lookup(nf, j, k2) == lookup(fs, j, k2)),
{
    lemma_assign_within(fs, i, k, v, fs.len());
    lemma_assign_lookup(fs, i, k, v, fs.len());
    match assign_at(fs, i, k, v) {
        Some(nf) => {
            let q = choose|q: nat| q < fs.len() && nf == define_at(fs, q, k, v)
                && #[trigger] find_key(fs[q as int].bucket, k, 0) is Some
                && lookup_within(fs, i, k, fs.len()) == bucket_get(fs[q as int].bucket, k);
            assert(nf.len() == fs.len());
            if k2 != k {
                law_define_keeps_other_names(fs, q, k, v, j, k2);
            }
        },
        None => {},
    }
}

/// Rebinding a name that is already bound keeps the names of a scope.
pub proof fn lemma_put_keeps_names(b: Seq<(Seq<char>, ValueV)>, k: Seq<char>, v: ValueV)
    requires
        find_key(b, k, 0) is Some,
    ensures
        bucket_names(bucket_put(b, k, v)) == bucket_names(b),
{
    lemma_find_key(b, k, 0);
    assert(bucket_names(bucket_put(b, k, v)) =~= bucket_names(b));
}

proof fn lemma_lookup_names_within(fs1: Seq<FrameV>, fs2: Seq<FrameV>, i: nat, k: Seq<char>, n1: nat, n2: nat)
    requires
        i < fs1.len(),
        i < fs2.len(),
        i <= n1,
        i <= n2,
        parents_before(fs1),
        forall|j: int| 0 <= j <= i ==> (#[trigger] fs2[j]).parent == fs1[j].parent
            && bucket_names(fs2[j].bucket) == bucket_names(fs1[j].bucket),
    ensures
        (lookup_within(fs1, i, k, n1) is None) == (lookup_within(fs2, i, k, n2) is None),
    decreases i,
{
    let b1 = fs1[i as int].bucket;
    let b2 = fs2[i as int].bucket;
    assert(bucket_names(fs2[i as int].bucket) == bucket_names(fs1[i as int].bucket));
    assert forall|m: int| 0 <= m < b1.len() implies #[trigger] b1[m].0 == b2[m].0 by {
        assert(bucket_names(b1)[m] == bucket_names(b2)[m]);
    }
    lemma_find_key_same_names(b1, b2, k, 0);
    match fs1[i as int].parent {
        Some(p) => {
            assert(p < i);
            lemma_lookup_names_within(fs1, fs2, p, k, (n1 - 1) as nat, (n2 - 1) as nat);
        },
        None => {},
    }
}

/// Where scopes sit in earlier ones, whether a name means anything depends on
/// the enclosing scopes and the names bound in them only.
pub proof fn lemma_lookup_names(fs1: Seq<FrameV>, fs2: Seq<FrameV>, i: nat, k: Seq<char>)
    requires
        i < fs1.len(),
        i < fs2.len(),
        parents_before(fs1),
        forall|j: int| 0 <= j <= i ==> (#[trigger] fs2[j]).parent == fs1[j].parent
            && bucket_names(fs2[j].bucket) == bucket_names(fs1[j].bucket),
    ensures
        (lookup(fs1, i, k) is None) == (lookup(fs2, i, k) is None),
{
    lemma_lookup_names_within(fs1, fs2, i, k, fs1.len(), fs2.len());
}

/// Where `key` is bound in `bucket`, if anywhere.
fn find_in(bucket: &Vec<(String, Value)>, key: &String) -> (r: Option<usize>)
    ensures
        match find_key(bucket_view(bucket@), key@, 0) {
            Some(j) => r == Some(j as usize),
            None => r is None,
        },
        r matches Some(j) ==> j < bucket@.len() && bucket@[j as int].0@ == key@
            && find_key(bucket_view(bucket@), key@, 0) == Some(j as nat),
{
    let ghost b = bucket_view(bucket@);
    proof {
        lemma_find_key(b, key@, 0);
    }
    let mut j: usize = 0;
    while j < bucket.len()
        invariant
            j <= bucket@.len(),
            b == bucket_view(bucket@),
            find_key(b, key@, 0) == find_key(b, key@, j as nat),
            find_key(b, key@, 0) matches Some(x) ==> x < bucket@.len(),
        decreases bucket@.len() - j,
    {
        if bucket[j].0 == *key {
            return Some(j);
        }
        j = j + 1;
    }
    None
}

impl Env {
    pub fn new(parent: Option<usize>) -> (e: Env)
        ensures
            e.view() == (FrameV {
                parent: match parent {
                    Some(p) => Some(p as nat),
                    None => None,
                },
                bucket: seq![],
            }),
    {
        let e = Self { parent: parent, bucket: Vec::new() };
        assert(bucket_view(e.bucket@) =~= seq![]);
        e
    }

    /// A copy of the scope.
    pub fn dup(&self) -> (e: Env)
        ensures
            e.view() == self.view(),
    {
        let mut bucket: Vec<(String, Value)> = Vec::new();
        let mut j: usize = 0;
        while j < self.bucket.len()
            invariant
                j <= self.bucket@.len(),
                bucket@.len() == j,
                forall|m: int| 0 <= m < j ==> #[trigger] binding_view(bucket@[m]) == binding_view(self.bucket@[m]),
            decreases self.bucket@.len() - j,
        {
            let b = &self.bucket[j];
            bucket.push((b.0.clone(), b.1.dup()));
            j = j + 1;
        }
        let e = Env { parent: self.parent, bucket };
        assert(bucket_view(e.bucket@) =~= bucket_view(self.bucket@));
        e
    }

    /// A new scope inside scope `parent`; its index.
    pub fn push_scope(envs: &mut Vec<Env>, parent: usize) -> (r: usize)
        ensures
            frames_view(final(envs)@) == frames_view(old(envs)@).push(
                FrameV { parent: Some(parent as nat), bucket: seq![] },
            ),
            r == old(envs)@.len(),
            final(envs)@.len() == old(envs)@.len() + 1,
    {
        let r = envs.len();
        envs.push(Env::new(Some(parent)));
        assert(frames_view(envs@) =~= frames_view(old(envs)@).push(
            FrameV { parent: Some(parent as nat), bucket: seq![] },
        ));
        r
    }

    /// What `key` means in scope `head`.
    pub fn get(envs: &Vec<Env>, head: usize, key: &str) -> (r: Option<Value>)
        ensures
            match lookup(frames_view(envs@), head as nat, key@) {
                Some(v) => r matches Some(x) && x.view() == v,
                None => r is None,
            },
    {
        let ghost fs = frames_view(envs@);
        let k = String::from_str(key);
        let mut curr = head;
        let mut steps = envs.len();
        loop
            invariant
                fs == frames_view(envs@),
                lookup(fs, head as nat, key@) == lookup_within(fs, curr as nat, key@, steps as nat),
                k@ == key@,
            decreases steps,
        {
            if curr >= envs.len() {
                return None;
            }
            let env = &envs[curr];
            assert(fs[curr as int] == env.view());
            match find_in(&env.bucket, &k) {
                Some(j) => {
                    assert(bucket_view(env.bucket@)[j as int] == binding_view(env.bucket@[j as int]));
                    return Some(env.bucket[j].1.dup());
                },
                None => {},
            }
            match env.parent {
                Some(p) => {
                    if steps == 0 {
                        return None;
                    }
                    curr = p;
                    steps = steps - 1;
                },
                None => {
                    return None;
                },
            }
        }
    }

    /// Binds `key` to `val` in scope `start` itself.
    pub fn define(envs: &mut Vec<Env>, start: usize, key: String, val: Value)
        requires
            start < old(envs)@.len(),
        ensures
            frames_view(final(envs)@) == define_at(frames_view(old(envs)@), start as nat, key@, val.view()),
            final(envs)@.len() == old(envs)@.len(),
    {
        let ghost fs = frames_view(envs@);
        let ghost v = val.view();
        let ghost kv = key@;
        let found = find_in(&envs[start].bucket, &key);
        let mut env = Env::new(None);
        std::mem::swap(&mut env, &mut envs[start]);
        assert(env.view() == fs[start as int]);
        let ghost old_b = env.bucket@;
        assert(bucket_view(old_b) == fs[start as int].bucket);
        match found {
            Some(j) => {
                assert(find_key(fs[start as int].bucket, kv, 0) == Some(j as nat));
                env.bucket.set(j, (key, val));
                assert(bucket_view(env.bucket@) =~= bucket_view(old_b).update(j as int, (kv, v)));
            },
            None => {
                assert(find_key(fs[start as int].bucket, kv, 0) is None);
                env.bucket.push((key, val));
                assert(bucket_view(env.bucket@) =~= bucket_view(old_b).push((kv, v)));
            },
        }
        assert(bucket_view(env.bucket@) =~= bucket_put(fs[start as int].bucket, kv, v));
        envs.set(start, env);
        assert(frames_view(envs@) =~= define_at(fs, start as nat, kv, v));
    }

    /// Rebinds `key` to `val` in the nearest scope from `start` outward that
    /// binds it; an error where none does.
    pub fn assign(envs: &mut Vec<Env>, start: usize, key: String, val: Value) -> (r: Result<(), String>)
        ensures
            match assign_at(frames_view(old(envs)@), start as nat, key@, val.view()) {
                Some(fs) => r is Ok && frames_view(final(envs)@) == fs,
                None => r matches Err(e) && e@ == "cannot reassign value to undefined variable"@
                    && final(envs)@ == old(envs)@,
            },
            final(envs)@.len() == old(envs)@.len(),
    {
        let ghost fs = frames_view(envs@);
        let mut curr = start;
        let mut steps = envs.len();
        loop
            invariant
                fs == frames_view(envs@),
                envs@ == old(envs)@,
                assign_at(fs, start as nat, key@, val.view()) == assign_within(fs, curr as nat, key@, val.view(), steps as nat),
            decreases steps,
        {
            if curr >= envs.len() {
                return Err(String::from_str("cannot reassign value to undefined variable"));
            }
            assert(fs[curr as int] == envs@[curr as int].view());
            if find_in(&envs[curr].bucket, &key).is_some() {
                Env::define(envs, curr, key, val);
                return Ok(());
            }
            match envs[curr].parent {
                Some(p) => {
                    if steps == 0 {
                        return Err(String::from_str("cannot reassign value to undefined variable"));
                    }
                    curr = p;
                    steps = steps - 1;
                },
                None => {
                    return Err(String::from_str("cannot reassign value to undefined variable"));
                },
            }
        }
    }
}

} // verus!
