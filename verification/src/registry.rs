//! The connection registry: the one structure shared by the
//! registration listener and the dispatcher.
//!
//! It maps each device SN to its live link. Entries are kept strictly
//! sorted by SN, which makes keys unique by construction and makes the
//! snapshot order (and with it the all-devices aggregation order)
//! deterministic. Re-registering an SN replaces the previous link and
//! hands its connection back to the caller to close: the latest
//! registration wins. Removal is idempotent. The registry never touches
//! the network itself; callers perform I/O on the connection handles it
//! stores, outside any lock that guards the map.

use vstd::prelude::*;

use crate::frames::valid_sn;

verus! {

/// Strict byte-wise lexicographic order on SNs.
pub open spec fn lex_lt(a: Seq<u8>, b: Seq<u8>) -> bool
    decreases a.len(),
{
    if b.len() == 0 {
        false
    } else if a.len() == 0 {
        true
    } else if a[0] < b[0] {
        true
    } else if a[0] > b[0] {
        false
    } else {
        lex_lt(a.skip(1), b.skip(1))
    }
}

/// `lex_lt` is asymmetric; in particular related strings differ.
pub proof fn lemma_lex_asym(a: Seq<u8>, b: Seq<u8>)
    requires
        lex_lt(a, b),
    ensures
        !lex_lt(b, a),
        a != b,
    decreases a.len(),
{
    if a.len() > 0 && b.len() > 0 && a[0] == b[0] {
        lemma_lex_asym(a.skip(1), b.skip(1));
        assert(a != b) by {
            if a == b {
                assert(a.skip(1) == b.skip(1));
            }
        }
    } else {
        if a == b {
            assert(a.len() == b.len());
        }
    }
}

/// Any two distinct strings are ordered one way or the other.
pub proof fn lemma_lex_connex(a: Seq<u8>, b: Seq<u8>)
    requires
        a != b,
    ensures
        lex_lt(a, b) || lex_lt(b, a),
    decreases a.len(),
{
    if a.len() > 0 && b.len() > 0 && a[0] == b[0] {
        assert(a.skip(1) != b.skip(1)) by {
            if a.skip(1) == b.skip(1) {
                assert(a =~= seq![a[0]] + a.skip(1));
                assert(b =~= seq![b[0]] + b.skip(1));
            }
        }
        lemma_lex_connex(a.skip(1), b.skip(1));
    } else if a.len() == 0 && b.len() == 0 {
        assert(a =~= b);
    }
}

/// `lex_lt` is transitive.
pub proof fn lemma_lex_trans(a: Seq<u8>, b: Seq<u8>, c: Seq<u8>)
    requires
        lex_lt(a, b),
        lex_lt(b, c),
    ensures
        lex_lt(a, c),
    decreases a.len(),
{
    if a.len() > 0 && b.len() > 0 && c.len() > 0 {
        if a[0] == b[0] && b[0] == c[0] {
            lemma_lex_trans(a.skip(1), b.skip(1), c.skip(1));
        }
    }
}

/// One registered device link: its identity, the handle of its live
/// connection, and the state cached from successful exchanges.
pub struct DeviceLink {
    /// The device's serial number, immutable for the link's lifetime.
    pub sn: Vec<u8>,
    /// Handle of the underlying connection, owned by the transport layer.
    pub conn: u64,
    /// Last reported device name; empty until the first read succeeds.
    pub name: Vec<u8>,
    /// Last reported temperature, tenths of a degree.
    pub temp_tenths: i32,
    /// Last reported humidity, tenths of a percent.
    pub hum_tenths: i32,
    /// Last reported calibration offset for temperature.
    pub temp_offset: i32,
    /// Last reported calibration offset for humidity.
    pub hum_offset: i32,
    /// Timestamp of the last successful read; zero until then.
    pub timestamp: u64,
    /// Whether an exchange is currently in progress on this link.
    pub in_flight: bool,
}

/// Spec-level state of one link, keyed externally by SN.
pub struct LinkModel {
    pub conn: u64,
    pub name: Seq<u8>,
    pub temp_tenths: int,
    pub hum_tenths: int,
    pub temp_offset: int,
    pub hum_offset: int,
    pub timestamp: int,
    pub in_flight: bool,
}

impl View for DeviceLink {
    type V = LinkModel;

    open spec fn view(&self) -> LinkModel {
        LinkModel {
            conn: self.conn,
            name: self.name@,
            temp_tenths: self.temp_tenths as int,
            hum_tenths: self.hum_tenths as int,
            temp_offset: self.temp_offset as int,
            hum_offset: self.hum_offset as int,
            timestamp: self.timestamp as int,
            in_flight: self.in_flight,
        }
    }
}

/// The state of the link registered under `sn`, if any: the first entry
/// carrying that SN.
pub open spec fn spec_lookup(s: Seq<DeviceLink>, sn: Seq<u8>) -> Option<LinkModel>
    decreases s.len(),
{
    if s.len() == 0 {
        None
    } else if s[0].sn@ == sn {
        Some(s[0]@)
    } else {
        spec_lookup(s.skip(1), sn)
    }
}

/// A present key is found: a matching entry preceded only by
/// non-matching ones determines the lookup.
pub proof fn lemma_lookup_at(s: Seq<DeviceLink>, sn: Seq<u8>, i: int)
    requires
        0 <= i < s.len(),
        s[i].sn@ == sn,
        forall|j: int| 0 <= j < i ==> (#[trigger] s[j].sn)@ != sn,
    ensures
        spec_lookup(s, sn) == Some(s[i]@),
    decreases i,
{
    if i > 0 {
        let t = s.skip(1);
        assert(forall|j: int| 0 <= j < i - 1 ==> (#[trigger] t[j].sn)@ == s[j + 1].sn@);
        lemma_lookup_at(t, sn, i - 1);
    }
}

/// An absent key is not found.
pub proof fn lemma_lookup_none(s: Seq<DeviceLink>, sn: Seq<u8>)
    requires
        forall|j: int| 0 <= j < s.len() ==> (#[trigger] s[j].sn)@ != sn,
    ensures
        spec_lookup(s, sn) is None,
    decreases s.len(),
{
    if s.len() > 0 {
        let t = s.skip(1);
        assert(forall|j: int| 0 <= j < t.len() ==> (#[trigger] t[j].sn)@ == s[j + 1].sn@);
        lemma_lookup_none(t, sn);
    }
}

/// Three-way lexicographic comparison of the byte suffixes from `from`.
fn cmp_bytes_from(a: &Vec<u8>, b: &Vec<u8>, from: usize) -> (c: i8)
    requires
        from <= a@.len(),
        from <= b@.len(),
    ensures
        c == 0 <==> a@.skip(from as int) == b@.skip(from as int),
        c < 0 <==> lex_lt(a@.skip(from as int), b@.skip(from as int)),
        c > 0 <==> lex_lt(b@.skip(from as int), a@.skip(from as int)),
    decreases a@.len() - from,
{
    let ghost sa = a@.skip(from as int);
    let ghost sb = b@.skip(from as int);
    if from == a.len() && from == b.len() {
        assert(sa =~= sb);
        0
    } else if from == a.len() {
        proof {
            lemma_lex_asym(sa, sb);
        }
        -1
    } else if from == b.len() {
        proof {
            lemma_lex_asym(sb, sa);
        }
        1
    } else {
        let x = a[from];
        let y = b[from];
        assert(sa[0] == a@[from as int] && sb[0] == b@[from as int]);
        if x < y {
            proof {
                lemma_lex_asym(sa, sb);
            }
            -1
        } else if x > y {
            proof {
                lemma_lex_asym(sb, sa);
            }
            1
        } else {
            let c = cmp_bytes_from(a, b, from + 1);
            proof {
                assert(sa.skip(1) =~= a@.skip(from + 1 as int));
                assert(sb.skip(1) =~= b@.skip(from + 1 as int));
                if a@.skip(from + 1 as int) == b@.skip(from + 1 as int) {
                    assert(sa =~= seq![a@[from as int]] + sa.skip(1));
                    assert(sb =~= seq![b@[from as int]] + sb.skip(1));
                    assert(sa == sb);
                }
                if sa == sb {
                    assert(sa.skip(1) == sb.skip(1));
                }
            }
            c
        }
    }
}

/// Three-way lexicographic comparison of two byte strings.
pub fn cmp_bytes(a: &Vec<u8>, b: &Vec<u8>) -> (c: i8)
    ensures
        c == 0 <==> a@ == b@,
        c < 0 <==> lex_lt(a@, b@),
        c > 0 <==> lex_lt(b@, a@),
{
    let c = cmp_bytes_from(a, b, 0);
    assert(a@.skip(0) =~= a@);
    assert(b@.skip(0) =~= b@);
    c
}

/// Byte-string equality.
pub fn bytes_eq(a: &Vec<u8>, b: &Vec<u8>) -> (r: bool)
    ensures
        r == (a@ == b@),
{
    cmp_bytes(a, b) == 0
}

/// A found key names some matching entry.
pub proof fn lemma_lookup_some_exists(s: Seq<DeviceLink>, sn: Seq<u8>)
    requires
        spec_lookup(s, sn) is Some,
    ensures
        exists|i: int| 0 <= i < s.len() && (#[trigger] s[i].sn)@ == sn && s[i]@ == spec_lookup(
            s,
            sn,
        )->0,
    decreases s.len(),
{
    if s.len() > 0 && s[0].sn@ != sn {
        lemma_lookup_some_exists(s.skip(1), sn);
        let i = choose|i: int|
            0 <= i < s.skip(1).len() && (#[trigger] s.skip(1)[i].sn)@ == sn && s.skip(1)[i]@
                == spec_lookup(s.skip(1), sn)->0;
        assert(s[i + 1].sn@ == sn && s[i + 1]@ == spec_lookup(s, sn)->0);
    }
}

/// A present key is found (existence direction).
pub proof fn lemma_lookup_present(s: Seq<DeviceLink>, sn: Seq<u8>, i: int)
    requires
        0 <= i < s.len(),
        s[i].sn@ == sn,
    ensures
        spec_lookup(s, sn) is Some,
    decreases i,
{
    if s[0].sn@ != sn {
        assert(s.skip(1)[i - 1] == s[i]);
        lemma_lookup_present(s.skip(1), sn, i - 1);
    }
}

/// Pairwise-distinct SNs.
pub open spec fn distinct_sns(s: Seq<DeviceLink>) -> bool {
    forall|i: int, j: int|
        0 <= i < j < s.len() ==> (#[trigger] s[i]).sn@ != (#[trigger] s[j]).sn@
}

/// Strictly increasing SNs, entry by entry.
pub open spec fn sorted_sns(s: Seq<DeviceLink>) -> bool {
    forall|i: int| 0 <= i < s.len() - 1 ==> lex_lt((#[trigger] s[i]).sn@, s[i + 1].sn@)
}

/// In a sorted registry any earlier entry is lexicographically below any
/// later one.
pub proof fn lemma_sorted_lt(s: Seq<DeviceLink>, i: int, j: int)
    requires
        sorted_sns(s),
        0 <= i < j < s.len(),
    ensures
        lex_lt(s[i].sn@, s[j].sn@),
    decreases j - i,
{
    if j > i + 1 {
        lemma_sorted_lt(s, i, j - 1);
        lemma_lex_trans(s[i].sn@, s[j - 1].sn@, s[j].sn@);
    }
}

/// Sortedness makes the keys unique.
pub proof fn lemma_sorted_distinct(s: Seq<DeviceLink>)
    requires
        sorted_sns(s),
    ensures
        distinct_sns(s),
{
    assert forall|i: int, j: int|
        0 <= i < j < s.len() implies (#[trigger] s[i]).sn@ != (#[trigger] s[j]).sn@ by {
        lemma_sorted_lt(s, i, j);
        lemma_lex_asym(s[i].sn@, s[j].sn@);
    }
}

/// Two registries with distinct keys agree on a key's lookup whenever
/// they hold the same matching entries for it.
pub proof fn lemma_lookup_agrees(s0: Seq<DeviceLink>, s1: Seq<DeviceLink>, t: Seq<u8>)
    requires
        distinct_sns(s0),
        distinct_sns(s1),
        forall|i: int|
            0 <= i < s0.len() && (#[trigger] s0[i]).sn@ == t ==> exists|j: int|
                0 <= j < s1.len() && (#[trigger] s1[j]).sn@ == t && s1[j]@ == s0[i]@,
        forall|j: int|
            0 <= j < s1.len() && (#[trigger] s1[j]).sn@ == t ==> exists|i: int|
                0 <= i < s0.len() && (#[trigger] s0[i]).sn@ == t && s0[i]@ == s1[j]@,
    ensures
        spec_lookup(s0, t) == spec_lookup(s1, t),
{
    if spec_lookup(s0, t) is Some {
        lemma_lookup_some_exists(s0, t);
        let i = choose|i: int|
            0 <= i < s0.len() && (#[trigger] s0[i].sn)@ == t && s0[i]@ == spec_lookup(s0, t)->0;
        assert(s0[i].sn@ == t);
        let j = choose|j: int| 0 <= j < s1.len() && (#[trigger] s1[j]).sn@ == t && s1[j]@ == s0[i]@;
        assert forall|k: int| 0 <= k < j implies (#[trigger] s1[k].sn)@ != t by {
            if s1[k].sn@ == t {
                assert(s1[k].sn@ == s1[j].sn@);
            }
        }
        lemma_lookup_at(s1, t, j);
    } else {
        assert forall|j: int| 0 <= j < s1.len() implies (#[trigger] s1[j].sn)@ != t by {
            if s1[j].sn@ == t {
                let i = choose|i: int|
                    0 <= i < s0.len() && (#[trigger] s0[i]).sn@ == t && s0[i]@ == s1[j]@;
                lemma_lookup_present(s0, t, i);
            }
        }
        lemma_lookup_none(s1, t);
    }
}

/// The state a freshly registered link starts in.
pub open spec fn fresh_link(conn: u64) -> LinkModel {
    LinkModel {
        conn,
        name: Seq::empty(),
        temp_tenths: 0,
        hum_tenths: 0,
        temp_offset: 0,
        hum_offset: 0,
        timestamp: 0,
        in_flight: false,
    }
}

/// What claiming a link for an exchange yielded.
#[derive(Clone, Copy, Debug, PartialEq, Eq, Structural)]
pub enum BeginOutcome {
    /// No link is registered under the SN.
    NotConnected,
    /// The link exists but another exchange is in flight on it.
    Busy,
    /// The link is claimed; the exchange may use this connection handle.
    Ready(u64),
}

/// The concurrent map from SN to live device link. Entries are strictly
/// sorted by SN; the transport layer guards the whole structure with its
/// lock and holds that lock only around these map operations, never
/// across device I/O.
pub struct ConnectionRegistry {
    pub entries: Vec<DeviceLink>,
}

impl ConnectionRegistry {
    /// Registry invariant: strictly sorted (hence unique) valid SNs.
    pub open spec fn wf(self) -> bool {
        &&& sorted_sns(self.entries@)
        &&& forall|i: int|
            0 <= i < self.entries@.len() ==> valid_sn((#[trigger] self.entries@[i]).sn@)
    }

    /// The link registered under `sn`, if any.
    pub open spec fn lookup(self, sn: Seq<u8>) -> Option<LinkModel> {
        spec_lookup(self.entries@, sn)
    }

    /// An empty registry.
    pub fn new() -> (r: Self)
        ensures
            r.wf(),
            r.entries@.len() == 0,
            forall|t: Seq<u8>| #[trigger] r.lookup(t) is None,
    {
        let r = ConnectionRegistry { entries: Vec::new() };
        proof {
            assert forall|t: Seq<u8>| #[trigger] r.lookup(t) is None by {
                lemma_lookup_none(r.entries@, t);
            }
        }
        r
    }

    /// Index of the entry holding `sn`, if one does.
    fn find(&self, sn: &Vec<u8>) -> (r: Option<usize>)
        ensures
            r matches Some(i) ==> i < self.entries@.len() && self.entries@[i as int].sn@ == sn@
                && self.lookup(sn@) == Some(self.entries@[i as int]@),
            r is None ==> self.lookup(sn@) is None,
    {
        let n = self.entries.len();
        let mut i: usize = 0;
        while i < n
            invariant
                n == self.entries@.len(),
                i <= n,
                forall|j: int| 0 <= j < i ==> (#[trigger] self.entries@[j].sn)@ != sn@,
            decreases n - i,
        {
            if bytes_eq(&self.entries[i].sn, sn) {
                proof {
                    lemma_lookup_at(self.entries@, sn@, i as int);
                }
                return Some(i);
            }
            i = i + 1;
        }
        proof {
            lemma_lookup_none(self.entries@, sn@);
        }
        None
    }

    /// First position whose SN is not below `sn`: where `sn` belongs.
    fn insert_pos(v: &Vec<DeviceLink>, sn: &Vec<u8>) -> (r: usize)
        ensures
            r <= v@.len(),
            forall|j: int| 0 <= j < r ==> lex_lt((#[trigger] v@[j]).sn@, sn@),
            r < v@.len() ==> !lex_lt(v@[r as int].sn@, sn@),
    {
        let n = v.len();
        let mut i: usize = 0;
        while i < n
            invariant
                n == v@.len(),
                i <= n,
                forall|j: int| 0 <= j < i ==> lex_lt((#[trigger] v@[j]).sn@, sn@),
            decreases n - i,
        {
            if cmp_bytes(&v[i].sn, sn) >= 0 {
                return i;
            }
            i = i + 1;
        }
        i
    }

    /// Registers `sn` with the connection `conn`. The new link starts
    /// fresh; if `sn` was already registered the previous link is
    /// replaced atomically and its connection handle is returned so the
    /// caller closes it — the latest registration wins. Every other SN
    /// is untouched.
    pub fn register(&mut self, sn: Vec<u8>, conn: u64) -> (evicted: Option<u64>)
        requires
            old(self).wf(),
            valid_sn(sn@),
        ensures
            final(self).wf(),
            final(self).lookup(sn@) == Some(fresh_link(conn)),
            forall|t: Seq<u8>|
                t != sn@ ==> #[trigger] final(self).lookup(t) == old(self).lookup(t),
            match evicted {
                Some(c) => old(self).lookup(sn@) matches Some(m) && m.conn == c,
                None => old(self).lookup(sn@) is None,
            },
    {
        let ghost s0 = self.entries@;
        proof {
            lemma_sorted_distinct(s0);
        }
        let pos = Self::insert_pos(&self.entries, &sn);
        let n = self.entries.len();
        if pos < n && bytes_eq(&self.entries[pos].sn, &sn) {
            let old_conn = self.entries[pos].conn;
            proof {
                assert forall|j: int| 0 <= j < pos implies (#[trigger] s0[j].sn)@ != sn@ by {
                    lemma_lex_asym(s0[j].sn@, sn@);
                }
                lemma_lookup_at(s0, sn@, pos as int);
            }
            let link = DeviceLink {
                sn,
                conn,
                name: Vec::new(),
                temp_tenths: 0,
                hum_tenths: 0,
                temp_offset: 0,
                hum_offset: 0,
                timestamp: 0,
                in_flight: false,
            };
            self.entries.set(pos, link);
            proof {
                let s1 = self.entries@;
                assert forall|i: int|
                    0 <= i < s1.len() implies (#[trigger] s1[i]).sn@ == s0[i].sn@ by {}
                assert(sorted_sns(s1));
                lemma_sorted_distinct(s1);
                assert forall|j: int| 0 <= j < pos implies (#[trigger] s1[j].sn)@ != sn@ by {}
                lemma_lookup_at(s1, sn@, pos as int);
                assert(s1[pos as int]@ == fresh_link(conn));
                assert forall|t: Seq<u8>|
                    t != sn@ implies #[trigger] spec_lookup(s1, t) == spec_lookup(s0, t) by {
                    lemma_lookup_agrees_update(s0, s1, t, pos as int);
                }
            }
            Some(old_conn)
        } else {
            proof {
                assert forall|j: int| 0 <= j < s0.len() implies (#[trigger] s0[j].sn)@ != sn@ by {
                    if j < pos {
                        lemma_lex_asym(s0[j].sn@, sn@);
                    } else {
                        if j == pos {
                            if s0[j].sn@ != sn@ {
                            } else {
                                assert(false);
                            }
                        } else {
                            lemma_sorted_lt(s0, pos as int, j);
                            if s0[pos as int].sn@ == sn@ {
                                assert(false);
                            }
                            lemma_lex_connex(s0[pos as int].sn@, sn@);
                            lemma_lex_trans(sn@, s0[pos as int].sn@, s0[j].sn@);
                            lemma_lex_asym(sn@, s0[j].sn@);
                        }
                    }
                }
                lemma_lookup_none(s0, sn@);
            }
            let link = DeviceLink {
                sn,
                conn,
                name: Vec::new(),
                temp_tenths: 0,
                hum_tenths: 0,
                temp_offset: 0,
                hum_offset: 0,
                timestamp: 0,
                in_flight: false,
            };
            let ghost lk = link;
            self.entries.insert(pos, link);
            proof {
                let s1 = self.entries@;
                s0.insert_ensures(pos as int, lk);
                if pos < n {
                    lemma_lex_connex(s0[pos as int].sn@, lk.sn@);
                }
                assert forall|k: int|
                    0 <= k < s1.len() - 1 implies lex_lt((#[trigger] s1[k]).sn@, s1[k + 1].sn@) by {
                    if k + 1 < pos {
                        assert(s1[k] == s0[k] && s1[k + 1] == s0[k + 1]);
                    } else if k + 1 == pos {
                        assert(s1[k] == s0[k] && s1[k + 1] == lk);
                    } else if k == pos {
                        assert(s1[k] == lk && s1[k + 1] == s0[k]);
                    } else {
                        assert(s1[k] == s0[k - 1] && s1[k + 1] == s0[k]);
                    }
                }
                assert(sorted_sns(s1));
                assert forall|i: int|
                    0 <= i < s1.len() implies valid_sn((#[trigger] s1[i]).sn@) by {
                    if i < pos {
                        assert(s1[i] == s0[i]);
                    } else if i == pos {
                        assert(s1[i] == lk);
                    } else {
                        assert(s1[i] == s0[i - 1]);
                    }
                }
                lemma_sorted_distinct(s1);
                assert forall|j: int| 0 <= j < pos implies (#[trigger] s1[j].sn)@ != sn@ by {
                    assert(s1[j] == s0[j]);
                    lemma_lex_asym(s0[j].sn@, sn@);
                }
                lemma_lookup_at(s1, sn@, pos as int);
                assert(s1[pos as int]@ == fresh_link(conn));
                assert forall|t: Seq<u8>|
                    t != sn@ implies #[trigger] spec_lookup(s1, t) == spec_lookup(s0, t) by {
                    lemma_lookup_agrees_insert(s0, s1, t, pos as int, lk);
                }
            }
            None
        }
    }
}

impl ConnectionRegistry {
    /// Replaces the entry at `i` by a link with the same SN.
    fn replace_entry(&mut self, i: usize, link: DeviceLink)
        requires
            old(self).wf(),
            i < old(self).entries@.len(),
            link.sn@ == old(self).entries@[i as int].sn@,
        ensures
            final(self).wf(),
            final(self).entries@.len() == old(self).entries@.len(),
            final(self).lookup(link.sn@) == Some(link@),
            forall|t: Seq<u8>|
                t != link.sn@ ==> #[trigger] final(self).lookup(t) == old(self).lookup(t),
    {
        let ghost s0 = self.entries@;
        proof {
            lemma_sorted_distinct(s0);
        }
        self.entries.set(i, link);
        proof {
            let s1 = self.entries@;
            assert forall|k: int| 0 <= k < s1.len() implies (#[trigger] s1[k]).sn@ == s0[k].sn@ by {}
            assert(sorted_sns(s1));
            lemma_sorted_distinct(s1);
            assert forall|j: int| 0 <= j < i implies (#[trigger] s1[j].sn)@ != link.sn@ by {
                assert(s0[j].sn@ != s0[i as int].sn@);
            }
            lemma_lookup_at(s1, link.sn@, i as int);
            assert forall|t: Seq<u8>|
                t != link.sn@ implies #[trigger] spec_lookup(s1, t) == spec_lookup(s0, t) by {
                lemma_lookup_agrees_update(s0, s1, t, i as int);
            }
        }
    }

    /// Removes the link registered under `sn` and hands back its
    /// connection handle so the caller closes it. Removing an absent SN
    /// is a no-op, not an error; every other SN is untouched.
    pub fn remove(&mut self, sn: &Vec<u8>) -> (closed: Option<u64>)
        requires
            old(self).wf(),
        ensures
            final(self).wf(),
            final(self).lookup(sn@) is None,
            forall|t: Seq<u8>|
                t != sn@ ==> #[trigger] final(self).lookup(t) == old(self).lookup(t),
            match closed {
                Some(c) => old(self).lookup(sn@) matches Some(m) && m.conn == c,
                None => old(self).lookup(sn@) is None && *final(self) == *old(self),
            },
    {
        let ghost s0 = self.entries@;
        proof {
            lemma_sorted_distinct(s0);
        }
        match self.find(sn) {
            None => None,
            Some(i) => {
                let c = self.entries[i].conn;
                self.entries.remove(i);
                proof {
                    let s1 = self.entries@;
                    s0.remove_ensures(i as int);
                    assert forall|k: int|
                        0 <= k < s1.len() - 1 implies lex_lt(
                        (#[trigger] s1[k]).sn@,
                        s1[k + 1].sn@,
                    ) by {
                        if k + 1 < i {
                            assert(s1[k] == s0[k] && s1[k + 1] == s0[k + 1]);
                        } else if k + 1 == i {
                            assert(s1[k] == s0[k] && s1[k + 1] == s0[k + 2]);
                            lemma_sorted_lt(s0, k, k + 2);
                        } else {
                            assert(s1[k] == s0[k + 1] && s1[k + 1] == s0[k + 2]);
                        }
                    }
                    assert(sorted_sns(s1));
                    assert forall|k: int|
                        0 <= k < s1.len() implies valid_sn((#[trigger] s1[k]).sn@) by {
                        if k < i {
                            assert(s1[k] == s0[k]);
                        } else {
                            assert(s1[k] == s0[k + 1]);
                        }
                    }
                    lemma_sorted_distinct(s1);
                    assert forall|j: int| 0 <= j < s1.len() implies (#[trigger] s1[j].sn)@
                        != sn@ by {
                        if j < i {
                            assert(s1[j] == s0[j]);
                            assert(s0[j].sn@ != s0[i as int].sn@);
                        } else {
                            assert(s1[j] == s0[j + 1]);
                            assert(s0[j + 1].sn@ != s0[i as int].sn@);
                        }
                    }
                    lemma_lookup_none(s1, sn@);
                    assert forall|t: Seq<u8>|
                        t != sn@ implies #[trigger] spec_lookup(s1, t) == spec_lookup(s0, t) by {
                        lemma_lookup_agrees_remove(s0, s1, t, i as int);
                    }
                }
                Some(c)
            },
        }
    }

    /// Claims the link of `sn` for one request/response exchange.
    /// Exchanges on one link are serialized: while one is in flight the
    /// link is busy and a second claim fails, so no two requests ever
    /// interleave their bytes on one socket. Claims on different SNs are
    /// independent: no other SN's state changes.
    pub fn try_begin_exchange(&mut self, sn: &Vec<u8>) -> (r: BeginOutcome)
        requires
            old(self).wf(),
        ensures
            final(self).wf(),
            match r {
                BeginOutcome::NotConnected => old(self).lookup(sn@) is None && *final(self)
                    == *old(self),
                BeginOutcome::Busy => (old(self).lookup(sn@) matches Some(m) && m.in_flight)
                    && *final(self) == *old(self),
                BeginOutcome::Ready(conn) => old(self).lookup(sn@) matches Some(m)
                    && !m.in_flight && conn == m.conn && final(self).lookup(sn@) == Some(
                    LinkModel { in_flight: true, ..m },
                ),
            },
            forall|t: Seq<u8>|
                t != sn@ ==> #[trigger] final(self).lookup(t) == old(self).lookup(t),
    {
        match self.find(sn) {
            None => BeginOutcome::NotConnected,
            Some(i) => {
                if self.entries[i].in_flight {
                    BeginOutcome::Busy
                } else {
                    let link = self.claimed_copy(i);
                    let conn = link.conn;
                    self.replace_entry(i, link);
                    BeginOutcome::Ready(conn)
                }
            },
        }
    }

    /// A copy of entry `i` marked as having an exchange in flight.
    fn claimed_copy(&self, i: usize) -> (link: DeviceLink)
        requires
            i < self.entries@.len(),
        ensures
            link@ == (LinkModel { in_flight: true, ..self.entries@[i as int]@ }),
            link.sn@ == self.entries@[i as int].sn@,
    {
        let mut link = self.copy_entry(i);
        link.in_flight = true;
        link
    }

    /// A plain copy of entry `i`.
    fn copy_entry(&self, i: usize) -> (link: DeviceLink)
        requires
            i < self.entries@.len(),
        ensures
            link@ == self.entries@[i as int]@,
            link.sn@ == self.entries@[i as int].sn@,
    {
        let e = &self.entries[i];
        let sn_copy = crate::frames::copy_range(&e.sn, 0, e.sn.len());
        assert(sn_copy@ =~= e.sn@);
        let name_copy = crate::frames::copy_range(&e.name, 0, e.name.len());
        assert(name_copy@ =~= e.name@);
        DeviceLink {
            sn: sn_copy,
            conn: e.conn,
            name: name_copy,
            temp_tenths: e.temp_tenths,
            hum_tenths: e.hum_tenths,
            temp_offset: e.temp_offset,
            hum_offset: e.hum_offset,
            timestamp: e.timestamp,
            in_flight: e.in_flight,
        }
    }

    /// A copy of the link state registered under `sn`, if any: the
    /// cached values served when no live exchange is wanted.
    pub fn lookup_cached(&self, sn: &Vec<u8>) -> (r: Option<DeviceLink>)
        ensures
            match r {
                Some(l) => self.lookup(sn@) matches Some(m) && l@ == m && l.sn@ == sn@,
                None => self.lookup(sn@) is None,
            },
    {
        match self.find(sn) {
            None => None,
            Some(i) => Some(self.copy_entry(i)),
        }
    }

    /// Stores the outcome of a successful read exchange: the reported
    /// name, values and timestamp are cached and the link is released.
    /// An absent SN is a no-op; every other SN is untouched.
    pub fn store_reading(
        &mut self,
        sn: &Vec<u8>,
        name: Vec<u8>,
        temp_tenths: i32,
        hum_tenths: i32,
        timestamp: u64,
    )
        requires
            old(self).wf(),
        ensures
            final(self).wf(),
            old(self).lookup(sn@) is None ==> *final(self) == *old(self),
            old(self).lookup(sn@) matches Some(m) ==> final(self).lookup(sn@) == Some(
                LinkModel {
                    name: name@,
                    temp_tenths: temp_tenths as int,
                    hum_tenths: hum_tenths as int,
                    timestamp: timestamp as int,
                    in_flight: false,
                    ..m
                },
            ),
            forall|t: Seq<u8>|
                t != sn@ ==> #[trigger] final(self).lookup(t) == old(self).lookup(t),
    {
        match self.find(sn) {
            None => {},
            Some(i) => {
                let e = &self.entries[i];
                let sn_copy = crate::frames::copy_range(&e.sn, 0, e.sn.len());
                assert(sn_copy@ =~= e.sn@);
                let link = DeviceLink {
                    sn: sn_copy,
                    conn: e.conn,
                    name,
                    temp_tenths,
                    hum_tenths,
                    temp_offset: e.temp_offset,
                    hum_offset: e.hum_offset,
                    timestamp,
                    in_flight: false,
                };
                self.replace_entry(i, link);
            },
        }
    }

    /// Stores the outcome of a successful offsets exchange and releases
    /// the link. An absent SN is a no-op; every other SN is untouched.
    pub fn store_offsets(&mut self, sn: &Vec<u8>, temp_offset: i32, hum_offset: i32)
        requires
            old(self).wf(),
        ensures
            final(self).wf(),
            old(self).lookup(sn@) is None ==> *final(self) == *old(self),
            old(self).lookup(sn@) matches Some(m) ==> final(self).lookup(sn@) == Some(
                LinkModel {
                    temp_offset: temp_offset as int,
                    hum_offset: hum_offset as int,
                    in_flight: false,
                    ..m
                },
            ),
            forall|t: Seq<u8>|
                t != sn@ ==> #[trigger] final(self).lookup(t) == old(self).lookup(t),
    {
        match self.find(sn) {
            None => {},
            Some(i) => {
                let e = &self.entries[i];
                let sn_copy = crate::frames::copy_range(&e.sn, 0, e.sn.len());
                assert(sn_copy@ =~= e.sn@);
                let name_copy = crate::frames::copy_range(&e.name, 0, e.name.len());
                assert(name_copy@ =~= e.name@);
                let link = DeviceLink {
                    sn: sn_copy,
                    conn: e.conn,
                    name: name_copy,
                    temp_tenths: e.temp_tenths,
                    hum_tenths: e.hum_tenths,
                    temp_offset,
                    hum_offset,
                    timestamp: e.timestamp,
                    in_flight: false,
                };
                self.replace_entry(i, link);
            },
        }
    }

    /// Releases the link of `sn` without storing anything: the exchange
    /// ended without a usable reply. An absent SN is a no-op; every
    /// other SN is untouched.
    pub fn release_link(&mut self, sn: &Vec<u8>)
        requires
            old(self).wf(),
        ensures
            final(self).wf(),
            old(self).lookup(sn@) is None ==> *final(self) == *old(self),
            old(self).lookup(sn@) matches Some(m) ==> final(self).lookup(sn@) == Some(
                LinkModel { in_flight: false, ..m },
            ),
            forall|t: Seq<u8>|
                t != sn@ ==> #[trigger] final(self).lookup(t) == old(self).lookup(t),
    {
        match self.find(sn) {
            None => {},
            Some(i) => {
                let e = &self.entries[i];
                let sn_copy = crate::frames::copy_range(&e.sn, 0, e.sn.len());
                assert(sn_copy@ =~= e.sn@);
                let name_copy = crate::frames::copy_range(&e.name, 0, e.name.len());
                assert(name_copy@ =~= e.name@);
                let link = DeviceLink {
                    sn: sn_copy,
                    conn: e.conn,
                    name: name_copy,
                    temp_tenths: e.temp_tenths,
                    hum_tenths: e.hum_tenths,
                    temp_offset: e.temp_offset,
                    hum_offset: e.hum_offset,
                    timestamp: e.timestamp,
                    in_flight: false,
                };
                self.replace_entry(i, link);
            },
        }
    }

    /// A copy of every registered link — SN and cached state — in
    /// registry order. Like `snapshot_sns`, but with the cached values.
    pub fn snapshot_all(&self) -> (r: Vec<DeviceLink>)
        ensures
            r@.len() == self.entries@.len(),
            forall|i: int|
                0 <= i < r@.len() ==> (#[trigger] r@[i])@ == self.entries@[i]@ && r@[i].sn@
                    == self.entries@[i].sn@,
    {
        let n = self.entries.len();
        let mut out: Vec<DeviceLink> = Vec::new();
        let mut i: usize = 0;
        while i < n
            invariant
                n == self.entries@.len(),
                i <= n,
                out@.len() == i,
                forall|j: int|
                    0 <= j < i ==> (#[trigger] out@[j])@ == self.entries@[j]@ && out@[j].sn@
                        == self.entries@[j].sn@,
            decreases n - i,
        {
            let link = self.copy_entry(i);
            out.push(link);
            i = i + 1;
        }
        out
    }

    /// The registered SNs in registry order, which is ascending
    /// byte-lexicographic order: the deterministic aggregation order of
    /// the all-devices kind.
    pub fn snapshot_sns(&self) -> (r: Vec<Vec<u8>>)
        ensures
            r@.len() == self.entries@.len(),
            forall|i: int| 0 <= i < r@.len() ==> (#[trigger] r@[i])@ == self.entries@[i].sn@,
    {
        let n = self.entries.len();
        let mut out: Vec<Vec<u8>> = Vec::new();
        let mut i: usize = 0;
        while i < n
            invariant
                n == self.entries@.len(),
                i <= n,
                out@.len() == i,
                forall|j: int| 0 <= j < i ==> (#[trigger] out@[j])@ == self.entries@[j].sn@,
            decreases n - i,
        {
            let e = &self.entries[i];
            let sn_copy = crate::frames::copy_range(&e.sn, 0, e.sn.len());
            assert(sn_copy@ =~= e.sn@);
            out.push(sn_copy);
            i = i + 1;
        }
        out
    }

    /// The connection handle registered under `sn`, if any. Using the
    /// handle for I/O happens outside the registry and its lock.
    pub fn get(&self, sn: &Vec<u8>) -> (r: Option<u64>)
        ensures
            match r {
                Some(c) => self.lookup(sn@) matches Some(m) && m.conn == c,
                None => self.lookup(sn@) is None,
            },
    {
        match self.find(sn) {
            Some(i) => Some(self.entries[i].conn),
            None => None,
        }
    }
}

/// After replacing the entry at `pos` by one with the same SN, lookups
/// of every other key are unchanged.
proof fn lemma_lookup_agrees_update(s0: Seq<DeviceLink>, s1: Seq<DeviceLink>, t: Seq<u8>, pos: int)
    requires
        distinct_sns(s0),
        distinct_sns(s1),
        0 <= pos < s0.len(),
        s1.len() == s0.len(),
        forall|i: int| 0 <= i < s0.len() && i != pos ==> #[trigger] s1[i] == s0[i],
        s1[pos].sn@ == s0[pos].sn@,
        t != s0[pos].sn@,
    ensures
        spec_lookup(s1, t) == spec_lookup(s0, t),
{
    assert forall|i: int|
        0 <= i < s0.len() && (#[trigger] s0[i]).sn@ == t implies exists|j: int|
            0 <= j < s1.len() && (#[trigger] s1[j]).sn@ == t && s1[j]@ == s0[i]@ by {
        assert(i != pos);
        assert(s1[i].sn@ == t && s1[i]@ == s0[i]@);
    }
    assert forall|j: int|
        0 <= j < s1.len() && (#[trigger] s1[j]).sn@ == t implies exists|i: int|
            0 <= i < s0.len() && (#[trigger] s0[i]).sn@ == t && s0[i]@ == s1[j]@ by {
        assert(j != pos);
        assert(s0[j].sn@ == t && s0[j]@ == s1[j]@);
    }
    lemma_lookup_agrees(s0, s1, t);
}

/// After inserting a new SN at `pos`, lookups of every other key are
/// unchanged.
proof fn lemma_lookup_agrees_insert(
    s0: Seq<DeviceLink>,
    s1: Seq<DeviceLink>,
    t: Seq<u8>,
    pos: int,
    lk: DeviceLink,
)
    requires
        distinct_sns(s0),
        distinct_sns(s1),
        0 <= pos <= s0.len(),
        s1.len() == s0.len() + 1,
        forall|i: int| 0 <= i < pos ==> #[trigger] s1[i] == s0[i],
        forall|i: int| pos <= i < s0.len() ==> #[trigger] s1[i + 1] == s0[i],
        s1[pos] == lk,
        t != lk.sn@,
    ensures
        spec_lookup(s1, t) == spec_lookup(s0, t),
{
    assert forall|i: int|
        0 <= i < s0.len() && (#[trigger] s0[i]).sn@ == t implies exists|j: int|
            0 <= j < s1.len() && (#[trigger] s1[j]).sn@ == t && s1[j]@ == s0[i]@ by {
        if i < pos {
            assert(s1[i].sn@ == t && s1[i]@ == s0[i]@);
        } else {
            assert(s1[i + 1].sn@ == t && s1[i + 1]@ == s0[i]@);
        }
    }
    assert forall|j: int|
        0 <= j < s1.len() && (#[trigger] s1[j]).sn@ == t implies exists|i: int|
            0 <= i < s0.len() && (#[trigger] s0[i]).sn@ == t && s0[i]@ == s1[j]@ by {
        assert(j != pos);
        if j < pos {
            assert(s0[j].sn@ == t && s0[j]@ == s1[j]@);
        } else {
            assert(s1[(j - 1) + 1] == s0[j - 1]);
            assert(s0[j - 1].sn@ == t && s0[j - 1]@ == s1[j]@);
        }
    }
    lemma_lookup_agrees(s0, s1, t);
}

/// After removing the entry at `pos`, lookups of every other key are
/// unchanged.
proof fn lemma_lookup_agrees_remove(s0: Seq<DeviceLink>, s1: Seq<DeviceLink>, t: Seq<u8>, pos: int)
    requires
        distinct_sns(s0),
        distinct_sns(s1),
        0 <= pos < s0.len(),
        s1.len() == s0.len() - 1,
        forall|i: int| 0 <= i < pos ==> #[trigger] s1[i] == s0[i],
        forall|i: int| pos <= i < s1.len() ==> #[trigger] s1[i] == s0[i + 1],
        t != s0[pos].sn@,
    ensures
        spec_lookup(s1, t) == spec_lookup(s0, t),
{
    assert forall|i: int|
        0 <= i < s0.len() && (#[trigger] s0[i]).sn@ == t implies exists|j: int|
            0 <= j < s1.len() && (#[trigger] s1[j]).sn@ == t && s1[j]@ == s0[i]@ by {
        assert(i != pos);
        if i < pos {
            assert(s1[i].sn@ == t && s1[i]@ == s0[i]@);
        } else {
            assert(s1[i - 1] == s0[i]);
            assert(s1[i - 1].sn@ == t && s1[i - 1]@ == s0[i]@);
        }
    }
    assert forall|j: int|
        0 <= j < s1.len() && (#[trigger] s1[j]).sn@ == t implies exists|i: int|
            0 <= i < s0.len() && (#[trigger] s0[i]).sn@ == t && s0[i]@ == s1[j]@ by {
        if j < pos {
            assert(s0[j].sn@ == t && s0[j]@ == s1[j]@);
        } else {
            assert(s0[j + 1].sn@ == t && s0[j + 1]@ == s1[j]@);
        }
    }
    lemma_lookup_agrees(s0, s1, t);
}

} // verus!
