use vstd::prelude::*;

verus! {

// ---------------------------------------------------------------------------
// MQTT topic filter matching
// ---------------------------------------------------------------------------

/// The length of the first topic level: the bytes up to the first `/`.
pub open spec fn seg_len(s: Seq<u8>) -> int
    decreases s.len(),
{
    if s.len() == 0 || s[0] == 47 {
        0
    } else {
        1 + seg_len(s.skip(1))
    }
}

pub proof fn lemma_seg_len_bound(s: Seq<u8>)
    ensures
        0 <= seg_len(s) <= s.len(),
        forall|k: int| 0 <= k < seg_len(s) ==> s[k] != 47,
        seg_len(s) < s.len() ==> s[seg_len(s)] == 47,
    decreases s.len(),
{
    if s.len() > 0 && s[0] != 47 {
        lemma_seg_len_bound(s.skip(1));
        assert forall|k: int| 0 <= k < seg_len(s) implies s[k] != 47 by {
            if k > 0 {
                assert(s.skip(1)[k - 1] != 47);
            }
        }
    }
}

/// The MQTT topic filter language: levels are split on `/`; a `+` level
/// matches exactly one topic level; a `#` level matches the remaining
/// levels, including none; every other level matches only its exact text.
/// Case-sensitive, and nothing is special about a leading `$`.
pub open spec fn filter_matches(f: Seq<u8>, t: Seq<u8>) -> bool
    decreases f.len(),
{
    let fl = seg_len(f);
    let tl = seg_len(t);
    let fseg = f.take(fl);
    let tseg = t.take(tl);
    if fseg == seq![35u8] {
        true
    } else if fseg != seq![43u8] && fseg != tseg {
        false
    } else {
        if fl < f.len() {
            if tl < t.len() {
                proof {
                    lemma_seg_len_bound(f);
                }
                filter_matches(f.skip(fl + 1), t.skip(tl + 1))
            } else {
                f.skip(fl + 1) == seq![35u8]
            }
        } else {
            tl == t.len()
        }
    }
}

fn seg_len_exec(s: &[u8]) -> (r: usize)
    ensures
        r as int == seg_len(s@),
{
    let n = s.len();
    let mut i: usize = 0;
    loop
        invariant_except_break
            i <= n,
            n == s@.len(),
            forall|k: int| 0 <= k < i ==> s@[k] != 47,
        ensures
            i <= n,
            n == s@.len(),
            forall|k: int| 0 <= k < i ==> s@[k] != 47,
            i < n ==> s@[i as int] == 47,
        decreases n - i,
    {
        if i >= n {
            break;
        }
        if s[i] == 47 {
            break;
        }
        i = i + 1;
    }
    proof {
        lemma_seg_len_exact(s@, i as int);
    }
    i
}

proof fn lemma_seg_len_exact(s: Seq<u8>, i: int)
    requires
        0 <= i <= s.len(),
        forall|k: int| 0 <= k < i ==> s[k] != 47,
        i < s.len() ==> s[i] == 47,
    ensures
        seg_len(s) == i,
    decreases s.len(),
{
    if s.len() > 0 && s[0] != 47 {
        assert(i > 0);
        lemma_seg_len_exact(s.skip(1), i - 1);
    }
}

pub fn bytes_eq(a: &[u8], b: &[u8]) -> (r: bool)
    ensures
        r == (a@ == b@),
{
    let n = a.len();
    if n != b.len() {
        proof {
            assert(a@ != b@);
        }
        return false;
    }
    let mut i: usize = 0;
    while i < n
        invariant
            i <= n,
            n == a@.len(),
            n == b@.len(),
            forall|k: int| 0 <= k < i ==> a@[k] == b@[k],
        decreases n - i,
    {
        if a[i] != b[i] {
            return false;
        }
        i = i + 1;
    }
    proof {
        assert(a@ =~= b@);
    }
    true
}

/// Whether the topic matches the filter, both given as UTF-8 bytes.
pub fn filter_matches_bytes(f: &[u8], t: &[u8]) -> (r: bool)
    ensures
        r == filter_matches(f@, t@),
    decreases f@.len(),
{
    proof {
        lemma_seg_len_bound(f@);
        lemma_seg_len_bound(t@);
    }
    let fl = seg_len_exec(f);
    let tl = seg_len_exec(t);
    let fseg = vstd::slice::slice_subrange(f, 0, fl);
    let tseg = vstd::slice::slice_subrange(t, 0, tl);
    proof {
        assert(f@.take(fl as int) == fseg@);
        assert(t@.take(tl as int) == tseg@);
        assert(seq![35u8].len() == 1 && seq![35u8][0] == 35u8);
        assert(seq![43u8].len() == 1 && seq![43u8][0] == 43u8);
        if fl == 1 && fseg@[0] == 35 {
            assert(fseg@ =~= seq![35u8]);
        }
        if fl == 1 && fseg@[0] == 43 {
            assert(fseg@ =~= seq![43u8]);
        }
    }
    if fl == 1 && fseg[0] == 35 {
        return true;
    }
    let is_plus = fl == 1 && fseg[0] == 43;
    if !is_plus && !bytes_eq(fseg, tseg) {
        return false;
    }
    if fl < f.len() {
        if tl < t.len() {
            let f2 = vstd::slice::slice_subrange(f, fl + 1, f.len());
            let t2 = vstd::slice::slice_subrange(t, tl + 1, t.len());
            proof {
                assert(f2@ =~= f@.skip(fl + 1));
                assert(t2@ =~= t@.skip(tl + 1));
            }
            filter_matches_bytes(f2, t2)
        } else {
            let f2 = vstd::slice::slice_subrange(f, fl + 1, f.len());
            proof {
                assert(f2@ =~= f@.skip(fl + 1));
                assert(seq![35u8].len() == 1 && seq![35u8][0] == 35u8);
                if f2.len() == 1 && f2@[0] == 35 {
                    assert(f2@ =~= seq![35u8]);
                }
            }
            f2.len() == 1 && f2[0] == 35
        }
    } else {
        tl == t.len()
    }
}

/// Whether the topic matches the filter.
pub fn topic_matches(filter: &str, topic: &str) -> (r: bool)
    ensures
        r == filter_matches(
            vstd::utf8::encode_utf8(filter@),
            vstd::utf8::encode_utf8(topic@),
        ),
{
    filter_matches_bytes(filter.as_bytes(), topic.as_bytes())
}

// ---------------------------------------------------------------------------
// Scoped topic paths
// ---------------------------------------------------------------------------

/// A path under the process prefix: appending a segment always inserts
/// exactly one separating slash.
pub open spec fn scoped_path(prefix: Seq<char>, segment: Seq<char>) -> Seq<char> {
    prefix + seq!['/'] + segment
}

/// A topic path accumulated by scoping: publish and subscribe requests
/// carry the accumulated prefix.
#[derive(Clone, Debug, PartialEq)]
pub struct Scope {
    pub prefix: String,
}

impl Scope {
    /// A scope rooted at the given prefix.
    pub fn new(prefix: String) -> (r: Scope)
        ensures
            r.prefix@ == prefix@,
    {
        Scope { prefix }
    }

    /// The scope one level below this one. Scoping only ever appends;
    /// empty segments are rejected.
    pub fn scoped(&self, segment: &str) -> (r: Scope)
        requires
            segment@.len() > 0,
        ensures
            r.prefix@ == scoped_path(self.prefix@, segment@),
    {
        let mut p = self.prefix.clone();
        p.append("/");
        p.append(segment);
        proof {
            reveal_strlit("/");
            assert("/"@ =~= seq!['/']);
            assert(p@ =~= scoped_path(self.prefix@, segment@));
        }
        Scope { prefix: p }
    }
}

/// Scoping twice is scoping by the joined path: reaching `a` and then `b`
/// gives the same topics as reaching `a/b` at once.
pub proof fn lemma_scoped_assoc(prefix: Seq<char>, a: Seq<char>, b: Seq<char>)
    ensures
        scoped_path(scoped_path(prefix, a), b) == scoped_path(prefix, a + seq!['/'] + b),
{
    assert(scoped_path(scoped_path(prefix, a), b) =~= scoped_path(prefix, a + seq!['/'] + b));
}

// ---------------------------------------------------------------------------
// Connection ids
// ---------------------------------------------------------------------------

/// The bytes of `/connect`.
pub open spec fn connect_suffix() -> Seq<u8> {
    seq![47u8, 99u8, 111u8, 110u8, 110u8, 101u8, 99u8, 116u8]
}

/// The connection id in a topic of the shape `<prefix>/<id>/connect`,
/// where the id is one non-empty level; `None` for any other topic.
pub open spec fn spec_connection_id(prefix: Seq<u8>, topic: Seq<u8>) -> Option<Seq<u8>> {
    let n = prefix.len() as int;
    if topic.len() >= n + 10 && topic.take(n) == prefix && topic[n] == 47 && topic.skip(
        topic.len() - 8,
    ) == connect_suffix() {
        let id = topic.subrange(n + 1, topic.len() - 8);
        if forall|k: int| 0 <= k < id.len() ==> id[k] != 47 {
            Some(id)
        } else {
            None
        }
    } else {
        None
    }
}

/// Extracts the connection id from a `<prefix>/<id>/connect` topic.
pub fn connection_id(prefix: &[u8], topic: &[u8]) -> (r: Option<Vec<u8>>)
    ensures
        match r {
            Some(id) => spec_connection_id(prefix@, topic@) == Some(id@),
            None => spec_connection_id(prefix@, topic@) is None,
        },
{
    let n = prefix.len();
    let tn = topic.len();
    if tn < n || tn - n < 10 {
        return None;
    }
    let head = vstd::slice::slice_subrange(topic, 0, n);
    if !bytes_eq(head, prefix) {
        proof {
            assert(topic@.take(n as int) == head@);
        }
        return None;
    }
    if topic[n] != 47 {
        return None;
    }
    let tail = vstd::slice::slice_subrange(topic, tn - 8, tn);
    let mut connect_lit: Vec<u8> = Vec::new();
    connect_lit.push(47);
    connect_lit.push(99);
    connect_lit.push(111);
    connect_lit.push(110);
    connect_lit.push(110);
    connect_lit.push(101);
    connect_lit.push(99);
    connect_lit.push(116);
    proof {
        assert(connect_lit@ =~= connect_suffix());
        assert(tail@ =~= topic@.skip(tn - 8));
    }
    if !bytes_eq(tail, connect_lit.as_slice()) {
        return None;
    }
    let id_slice = vstd::slice::slice_subrange(topic, n + 1, tn - 8);
    proof {
        assert(id_slice@ =~= topic@.subrange(n + 1, tn - 8));
    }
    let m = id_slice.len();
    let mut i: usize = 0;
    while i < m
        invariant
            i <= m,
            m == id_slice@.len(),
            n == prefix@.len(),
            tn == topic@.len(),
            tn >= n + 10,
            id_slice@ == topic@.subrange(n as int + 1, tn as int - 8),
            topic@.take(n as int) == prefix@,
            topic@[n as int] == 47,
            topic@.skip(tn as int - 8) == connect_suffix(),
            forall|k: int| 0 <= k < i ==> id_slice@[k] != 47,
        decreases m - i,
    {
        if id_slice[i] == 47 {
            proof {
                assert(topic@.subrange(n as int + 1, tn as int - 8)[i as int] == 47);
            }
            return None;
        }
        i = i + 1;
    }
    let mut id: Vec<u8> = Vec::new();
    let mut k: usize = 0;
    while k < m
        invariant
            k <= m,
            m == id_slice@.len(),
            id@ == id_slice@.take(k as int),
        decreases m - k,
    {
        id.push(id_slice[k]);
        proof {
            assert(id@ =~= id_slice@.take(k + 1));
        }
        k = k + 1;
    }
    proof {
        assert(id@ =~= id_slice@);
    }
    Some(id)
}

} // verus!
