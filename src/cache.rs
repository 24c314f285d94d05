use vstd::prelude::*;

use std::collections::HashMap;
use vstd::string::StringSliceAdditionalSpecFns;

verus! {

broadcast use vstd::std_specs::hash::group_hash_axioms;

/// The snapshot field whose value changes on every fetch without meaning a
/// change of the leaderboard.
pub const VOLATILE_FIELD: &'static str = "totalLeaderboardEntries";

/// The byte that ends a field of a snapshot (`,`).
pub const FIELD_BOUNDARY: u8 = 44;

pub open spec fn volatile_label() -> Seq<u8> {
    VOLATILE_FIELD.spec_bytes()
}

/// `l` occurs in `t` starting at `i`.
pub open spec fn occurs_at(t: Seq<u8>, l: Seq<u8>, i: int) -> bool {
    0 <= i && i + l.len() <= t.len() && t.subrange(i, i + l.len()) == l
}

/// `i` is where `l` first occurs in `t`.
pub open spec fn is_first_occurrence(t: Seq<u8>, l: Seq<u8>, i: int) -> bool {
    occurs_at(t, l, i) && forall|j: int| 0 <= j < i ==> !#[trigger] occurs_at(t, l, j)
}

/// A field ends at `b` in `t`: a field boundary stands there, or the label
/// occurs again there (the label then closes the field, as a tag would).
pub open spec fn ends_field(t: Seq<u8>, b: int) -> bool {
    (0 <= b < t.len() && t[b] == FIELD_BOUNDARY) || occurs_at(t, volatile_label(), b)
}

/// `b` is the first place at or after `from` where a field of `t` ends.
pub open spec fn is_field_end(t: Seq<u8>, from: int, b: int) -> bool {
    &&& 0 <= from <= b
    &&& ends_field(t, b)
    &&& forall|j: int| from <= j < b ==> !#[trigger] ends_field(t, j)
}

/// Where the text resumes after a field that ends at `b`: past the closing
/// label when there is one, else past the boundary.
pub open spec fn resume_after(t: Seq<u8>, b: int) -> int {
    if occurs_at(t, volatile_label(), b) {
        b + volatile_label().len()
    } else {
        b + 1
    }
}

/// What remains of `s` after its first field ends (nothing when none does).
pub open spec fn rest_after_field(s: Seq<u8>) -> Seq<u8> {
    if exists|b: int| is_field_end(s, 0, b) {
        let b = choose|b: int| is_field_end(s, 0, b);
        s.subrange(resume_after(s, b), s.len() as int)
    } else {
        seq![]
    }
}

/// The canonical form of a snapshot: the first occurrence of the volatile
/// field's label is cut out together with its value, which runs up to the
/// first field boundary (`,`) or the next occurrence of the label, whichever
/// comes first; that boundary or closing label is cut too, and with neither the
/// value runs to the end. A snapshot without the label is already canonical.
pub open spec fn canonical(t: Seq<u8>) -> Seq<u8> {
    let l = volatile_label();
    if exists|i: int| is_first_occurrence(t, l, i) {
        let i = choose|i: int| is_first_occurrence(t, l, i);
        t.subrange(0, i) + rest_after_field(t.subrange(i + l.len(), t.len() as int))
    } else {
        t
    }
}

proof fn lemma_first_occurrence_unique(t: Seq<u8>, l: Seq<u8>, i: int, k: int)
    requires
        is_first_occurrence(t, l, i),
        is_first_occurrence(t, l, k),
    ensures
        i == k,
{
    if i < k {
        assert(!occurs_at(t, l, i));
    } else if k < i {
        assert(!occurs_at(t, l, k));
    }
}

proof fn lemma_field_end_unique(t: Seq<u8>, from: int, b: int, c: int)
    requires
        is_field_end(t, from, b),
        is_field_end(t, from, c),
    ensures
        b == c,
{
    if b < c {
        assert(!ends_field(t, b));
    } else if c < b {
        assert(!ends_field(t, c));
    }
}

/// Any field end at or after `from` means there is a first one.
proof fn lemma_field_end_exists(t: Seq<u8>, from: int, k: int)
    requires
        0 <= from <= k,
        ends_field(t, k),
    ensures
        exists|b: int| is_field_end(t, from, b),
    decreases k - from,
{
    if exists|j: int| from <= j < k && ends_field(t, j) {
        let j = choose|j: int| from <= j < k && ends_field(t, j);
        lemma_field_end_exists(t, from, j);
    } else {
        assert(is_field_end(t, from, k));
    }
}

/// Field ends of `s` are field ends of `p + s`, moved by `p.len()`.
proof fn lemma_ends_field_shift(p: Seq<u8>, s: Seq<u8>, k: int)
    requires
        0 <= k,
    ensures
        ends_field(p + s, p.len() + k) == ends_field(s, k),
        occurs_at(p + s, volatile_label(), p.len() + k) == occurs_at(s, volatile_label(), k),
        resume_after(p + s, p.len() + k) == p.len() + resume_after(s, k),
{
    let l = volatile_label();
    let t = p + s;
    let j = p.len() + k;
    if k + l.len() <= s.len() {
        assert(t.subrange(j, j + l.len()) =~= s.subrange(k, k + l.len()));
    }
    if k < s.len() {
        assert(t[j] == s[k]);
    }
}

/// A prefix without field ends changes nothing of what follows the first one.
proof fn lemma_rest_after_prefix(p: Seq<u8>, s: Seq<u8>)
    requires
        forall|k: int| 0 <= k < p.len() ==> !#[trigger] ends_field(p + s, k),
    ensures
        rest_after_field(p + s) == rest_after_field(s),
{
    let t = p + s;
    let n = p.len() as int;
    if exists|c: int| is_field_end(s, 0, c) {
        let c = choose|c: int| is_field_end(s, 0, c);
        let b = n + c;
        lemma_ends_field_shift(p, s, c);
        assert forall|j: int| 0 <= j < b implies !#[trigger] ends_field(t, j) by {
            if j >= n {
                lemma_ends_field_shift(p, s, j - n);
            }
        }
        assert(is_field_end(t, 0, b));
        let b2 = choose|b2: int| is_field_end(t, 0, b2);
        lemma_field_end_unique(t, 0, b, b2);
        assert(t.subrange(resume_after(t, b), t.len() as int) =~= s.subrange(
            resume_after(s, c),
            s.len() as int,
        ));
    } else {
        if exists|b: int| is_field_end(t, 0, b) {
            let b = choose|b: int| is_field_end(t, 0, b);
            assert(b >= n);
            lemma_ends_field_shift(p, s, b - n);
            lemma_field_end_exists(s, 0, b - n);
        }
    }
}

fn occurs_at_exec(t: &[u8], l: &[u8], i: usize) -> (r: bool)
    requires
        l@.len() <= t@.len(),
        i <= t@.len() - l@.len(),
    ensures
        r == occurs_at(t@, l@, i as int),
{
    let n = l.len();
    let tn = t.len();
    let mut k: usize = 0;
    while k < n
        invariant
            0 <= k <= n,
            n == l@.len(),
            tn == t@.len(),
            l@.len() <= t@.len(),
            i <= t@.len() - l@.len(),
            forall|m: int| 0 <= m < k ==> t@[i + m] == l@[m],
        decreases n - k,
    {
        assert(i + k < t@.len());
        if t[i + k] != l[k] {
            assert(t@.subrange(i as int, i + n)[k as int] != l@[k as int]);
            return false;
        }
        k = k + 1;
    }
    assert(t@.subrange(i as int, i + n) =~= l@);
    true
}

fn find_first(t: &[u8], l: &[u8]) -> (r: Option<usize>)
    ensures
        match r {
            Some(i) => is_first_occurrence(t@, l@, i as int),
            None => forall|i: int| !#[trigger] occurs_at(t@, l@, i),
        },
{
    if l.len() > t.len() {
        return None;
    }
    let last = t.len() - l.len();
    let mut i: usize = 0;
    loop
        invariant
            l@.len() <= t@.len(),
            last == t@.len() - l@.len(),
            i <= last,
            forall|j: int| 0 <= j < i ==> !#[trigger] occurs_at(t@, l@, j),
        decreases last - i,
    {
        if occurs_at_exec(t, l, i) {
            return Some(i);
        }
        if i == last {
            return None;
        }
        i = i + 1;
    }
}

/// The first field end of the text after `from`, and where the text resumes
/// after it, both as positions in `t`.
fn find_field_end(t: &[u8], l: &[u8], from: usize) -> (r: Option<(usize, usize)>)
    requires
        l@ == volatile_label(),
        from <= t@.len(),
    ensures
        match r {
            Some((b, next)) => from <= b && is_field_end(
                t@.subrange(from as int, t@.len() as int),
                0,
                b - from,
            ) && next == from + resume_after(t@.subrange(from as int, t@.len() as int), b - from)
                && next <= t@.len(),
            None => forall|k: int| !#[trigger] ends_field(t@.subrange(from as int, t@.len() as int), k),
        },
{
    let ghost pre = t@.subrange(0, from as int);
    let ghost sfx = t@.subrange(from as int, t@.len() as int);
    assert(t@ =~= pre + sfx);
    let n = t.len();
    let mut b: usize = from;
    loop
        invariant
            l@ == volatile_label(),
            n == t@.len(),
            from <= b <= n,
            pre == t@.subrange(0, from as int),
            sfx == t@.subrange(from as int, t@.len() as int),
            t@ == pre + sfx,
            forall|k: int| 0 <= k < b - from ==> !#[trigger] ends_field(sfx, k),
        decreases n - b,
    {
        proof {
            lemma_ends_field_shift(pre, sfx, b - from);
        }
        if l.len() <= n - b && occurs_at_exec(t, l, b) {
            return Some((b, b + l.len()));
        }
        if b < n && t[b] == FIELD_BOUNDARY {
            return Some((b, b + 1));
        }
        if b == n {
            assert forall|k: int| !#[trigger] ends_field(sfx, k) by {
                if 0 <= k < b - from {
                } else if k > b - from {
                    assert(!occurs_at(sfx, l@, k));
                }
            }
            return None;
        }
        b = b + 1;
    }
}

fn append_range(out: &mut Vec<u8>, t: &[u8], from: usize, to: usize)
    requires
        from <= to <= t@.len(),
    ensures
        final(out)@ == old(out)@ + t@.subrange(from as int, to as int),
{
    let mut k: usize = from;
    while k < to
        invariant
            from <= k <= to <= t@.len(),
            out@ == old(out)@ + t@.subrange(from as int, k as int),
        decreases to - k,
    {
        out.push(t[k]);
        k = k + 1;
        assert(out@ =~= old(out)@ + t@.subrange(from as int, k as int));
    }
}

/// The canonical form of a snapshot's text, as bytes.
pub fn canonical_snapshot(text: &str) -> (r: Vec<u8>)
    ensures
        r@ == canonical(text.spec_bytes()),
{
    let t = text.as_bytes();
    let l = VOLATILE_FIELD.as_bytes();
    let n = t.len();
    let ghost ts = t@;
    let mut out: Vec<u8> = Vec::new();
    match find_first(t, l) {
        None => {
            append_range(&mut out, t, 0, n);
            assert(out@ =~= ts);
            assert(!exists|i: int| is_first_occurrence(ts, volatile_label(), i));
        },
        Some(i) => {
            proof {
                let k = choose|k: int| is_first_occurrence(ts, volatile_label(), k);
                lemma_first_occurrence_unique(ts, volatile_label(), i as int, k);
            }
            append_range(&mut out, t, 0, i);
            assert(occurs_at(ts, l@, i as int));
            let end = i + l.len();
            let ghost sfx = ts.subrange(end as int, ts.len() as int);
            match find_field_end(t, l, end) {
                Some((b, next)) => {
                    proof {
                        let c = choose|c: int| is_field_end(sfx, 0, c);
                        lemma_field_end_unique(sfx, 0, b - end, c);
                    }
                    append_range(&mut out, t, next, n);
                    assert(ts.subrange(next as int, n as int) =~= sfx.subrange(
                        resume_after(sfx, b - end),
                        sfx.len() as int,
                    ));
                    assert(out@ =~= ts.subrange(0, i as int) + rest_after_field(sfx));
                },
                None => {
                    assert(!exists|c: int| is_field_end(sfx, 0, c));
                    assert(out@ =~= ts.subrange(0, i as int) + rest_after_field(sfx));
                },
            }
        },
    }
    out
}

fn same_bytes(a: &[u8], b: &[u8]) -> (r: bool)
    ensures
        r == (a@ == b@),
{
    if a.len() != b.len() {
        return false;
    }
    let mut k: usize = 0;
    while k < a.len()
        invariant
            a@.len() == b@.len(),
            0 <= k <= a@.len(),
            forall|m: int| 0 <= m < k ==> a@[m] == b@[m],
        decreases a@.len() - k,
    {
        if a[k] != b[k] {
            return false;
        }
        k = k + 1;
    }
    assert(a@ =~= b@);
    true
}

/// Decides what a fresh snapshot means against the stored canonical text
/// `prior` (`None` when nothing is stored): `None` when its canonical form is
/// byte for byte what is stored, else the canonical form to store.
pub fn snapshot_change(prior: Option<&[u8]>, text: &str) -> (r: Option<Vec<u8>>)
    ensures
        r is None <==> (prior is Some && prior.unwrap()@ == canonical(text.spec_bytes())),
        r is Some ==> r.unwrap()@ == canonical(text.spec_bytes()),
{
    let c = canonical_snapshot(text);
    match prior {
        Some(p) => {
            if same_bytes(p, c.as_slice()) {
                None
            } else {
                Some(c)
            }
        },
        None => Some(c),
    }
}

/// One call of the cache on `store`: the store afterwards, and whether the
/// snapshot was reported as changed. An unchanged snapshot leaves the store as
/// it was; a changed one is stored in canonical form under `id`.
pub open spec fn cache_step(store: Map<i32, Seq<u8>>, id: i32, text: Seq<u8>) -> (
    Map<i32, Seq<u8>>,
    bool,
) {
    let c = canonical(text);
    if store.contains_key(id) && store[id] == c {
        (store, false)
    } else {
        (store.insert(id, c), true)
    }
}

/// The last canonical snapshot seen for each leaderboard.
pub struct SnapshotStore {
    entries: HashMap<i32, Vec<u8>>,
}

impl View for SnapshotStore {
    type V = Map<i32, Seq<u8>>;

    closed spec fn view(&self) -> Map<i32, Seq<u8>> {
        self.entries@.map_values(|v: Vec<u8>| v@)
    }
}

impl SnapshotStore {
    /// A store that holds nothing.
    pub fn new() -> (r: Self)
        ensures
            r@ == Map::<i32, Seq<u8>>::empty(),
    {
        let r = SnapshotStore { entries: HashMap::new() };
        assert(r@ =~= Map::<i32, Seq<u8>>::empty());
        r
    }

    /// The canonical snapshot stored for `id`, if any.
    pub fn get(&self, id: i32) -> (r: Option<&Vec<u8>>)
        ensures
            r is Some <==> self@.contains_key(id),
            r is Some ==> r.unwrap()@ == self@[id],
    {
        self.entries.get(&id)
    }

    /// Stores `snapshot` for `id`, replacing what was there.
    pub fn put(&mut self, id: i32, snapshot: Vec<u8>)
        ensures
            final(self)@ == old(self)@.insert(id, snapshot@),
    {
        let ghost v = snapshot@;
        self.entries.insert(id, snapshot);
        assert(self@ =~= old(self)@.insert(id, v));
    }
}

/// Records a fresh snapshot of leaderboard `id` and reports whether it says
/// something new: `true` when nothing was stored for `id` or the stored text
/// differs from the snapshot's canonical form (which is then stored), `false`
/// when they are byte for byte equal (nothing is written).
pub fn cache_leaderboard(store: &mut SnapshotStore, id: i32, text: &str) -> (r: bool)
    ensures
        (final(store)@, r) == cache_step(old(store)@, id, text.spec_bytes()),
{
    let change = match store.get(id) {
        Some(prior) => snapshot_change(Some(prior.as_slice()), text),
        None => snapshot_change(None, text),
    };
    match change {
        Some(c) => {
            store.put(id, c);
            true
        },
        None => false,
    }
}

/// The same snapshot twice in a row: the second call reports no change, and
/// the first reports one when nothing was stored for the leaderboard.
pub proof fn lemma_repeat_is_unchanged(store: Map<i32, Seq<u8>>, id: i32, text: Seq<u8>)
    ensures
        !cache_step(cache_step(store, id, text).0, id, text).1,
        !store.contains_key(id) ==> cache_step(store, id, text).1,
{
}

/// The text of a snapshot whose volatile field (the first occurrence of its
/// label) holds `value`, with `before` ahead of it and `after` behind it.
pub open spec fn snapshot_with(before: Seq<u8>, value: Seq<u8>, after: Seq<u8>) -> Seq<u8> {
    before + volatile_label() + value + after
}

proof fn lemma_canonical_of_snapshot(before: Seq<u8>, value: Seq<u8>, after: Seq<u8>)
    requires
        forall|j: int| 0 <= j < before.len() ==> !#[trigger] occurs_at(before + volatile_label(), volatile_label(), j),
        forall|k: int| 0 <= k < value.len() ==> !#[trigger] ends_field(value + after, k),
    ensures
        canonical(snapshot_with(before, value, after)) == before + rest_after_field(after),
{
    let l = volatile_label();
    let t = snapshot_with(before, value, after);
    let pl = before + l;
    let i = before.len() as int;
    let end = i + l.len();
    assert(t.subrange(i, end) =~= l);
    assert forall|j: int| 0 <= j < i implies !#[trigger] occurs_at(t, l, j) by {
        assert(t.subrange(j, j + l.len()) =~= pl.subrange(j, j + l.len()));
        assert(!occurs_at(pl, l, j));
    }
    assert(is_first_occurrence(t, l, i));
    let k = choose|k: int| is_first_occurrence(t, l, k);
    lemma_first_occurrence_unique(t, l, i, k);
    assert(t.subrange(0, i) =~= before);
    assert(t.subrange(end, t.len() as int) =~= value + after);
    lemma_rest_after_prefix(value, after);
}

/// Two snapshots that differ only in the value of the volatile field (a value
/// that holds neither a field boundary nor the label) have the same canonical
/// form, so after one of them the other reports no change.
pub proof fn lemma_volatile_value_ignored(
    store: Map<i32, Seq<u8>>,
    id: i32,
    before: Seq<u8>,
    v1: Seq<u8>,
    v2: Seq<u8>,
    after: Seq<u8>,
)
    requires
        forall|j: int| 0 <= j < before.len() ==> !#[trigger] occurs_at(before + volatile_label(), volatile_label(), j),
        forall|k: int| 0 <= k < v1.len() ==> !#[trigger] ends_field(v1 + after, k),
        forall|k: int| 0 <= k < v2.len() ==> !#[trigger] ends_field(v2 + after, k),
    ensures
        canonical(snapshot_with(before, v1, after)) == canonical(snapshot_with(before, v2, after)),
        !cache_step(
            cache_step(store, id, snapshot_with(before, v1, after)).0,
            id,
            snapshot_with(before, v2, after),
        ).1,
{
    lemma_canonical_of_snapshot(before, v1, after);
    lemma_canonical_of_snapshot(before, v2, after);
}

/// After the same snapshot twice, a snapshot with different canonical content
/// reports a change, and the store then holds its canonical form.
pub proof fn lemma_new_content_overwrites(
    store: Map<i32, Seq<u8>>,
    id: i32,
    text: Seq<u8>,
    newer: Seq<u8>,
)
    requires
        canonical(newer) != canonical(text),
    ensures
        ({
            let s1 = cache_step(store, id, text).0;
            let s2 = cache_step(s1, id, text).0;
            let (s3, changed) = cache_step(s2, id, newer);
            changed && s3.contains_key(id) && s3[id] == canonical(newer)
        }),
{
}

} // verus!
