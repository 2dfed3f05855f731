//! Exception-handling tables: the `.gcc_except_table` LSDA (language-specific
//! data area) read by Itanium-ABI personality routines, and the minimal MSVC
//! `FuncInfo` blob (IP-to-state map) for COFF targets.

use vstd::prelude::*;
use crate::leb128::{uleb128, write_uleb128};
use crate::machine::append_bytes;
use crate::object::{Section, SectionView};
use crate::strings::str_equal;

verus! {

/// One call-site record of the LSDA.
#[derive(Clone, Copy, Debug, PartialEq, Eq, Structural)]
pub struct CallSiteRecord {
    /// Byte offset from function start of the call instruction.
    pub call_start: u32,
    /// Length in bytes of the call instruction.
    pub call_len: u32,
    /// Byte offset from function start of the landing pad; `0` means none.
    pub landing_pad: u32,
    /// `0` = cleanup; `1+` = index into the action table.
    pub action: u32,
}

/// Encoding of one call-site record: its four fields as ULEB128.
pub open spec fn record_bytes(r: CallSiteRecord) -> Seq<u8> {
    uleb128(r.call_start as nat) + uleb128(r.call_len as nat) + uleb128(r.landing_pad as nat)
        + uleb128(r.action as nat)
}

/// The call-site table: the records' encodings in order.
pub open spec fn call_site_table(recs: Seq<CallSiteRecord>) -> Seq<u8>
    decreases recs.len(),
{
    if recs.len() == 0 {
        Seq::empty()
    } else {
        call_site_table(recs.drop_last()) + record_bytes(recs.last())
    }
}

/// The serialised LSDA: `@LPStart` = omit (0xff), `@TType` = omit (0xff),
/// call-site encoding = ULEB128 (0x01), the table length as ULEB128, the table.
pub open spec fn lsda_bytes(recs: Seq<CallSiteRecord>) -> Seq<u8> {
    seq![0xffu8, 0xffu8, 0x01u8] + uleb128(call_site_table(recs).len()) + call_site_table(recs)
}

/// Builder for a `.gcc_except_table` LSDA.
pub struct LsdaBuilder {
    call_sites: Vec<CallSiteRecord>,
    /// Type-info entries, reserved for typed catches (`@TType` is currently omitted).
    #[allow(dead_code)]
    type_infos: Vec<u64>,
}

impl View for LsdaBuilder {
    type V = Seq<CallSiteRecord>;

    closed spec fn view(&self) -> Seq<CallSiteRecord> {
        self.call_sites@
    }
}

impl LsdaBuilder {
    /// An empty builder.
    pub fn new() -> (r: LsdaBuilder)
        ensures
            r@ == Seq::<CallSiteRecord>::empty(),
    {
        LsdaBuilder { call_sites: Vec::new(), type_infos: Vec::new() }
    }

    /// Append a call-site record.
    pub fn add_call_site(&mut self, rec: CallSiteRecord)
        ensures
            final(self)@ == old(self)@.push(rec),
    {
        self.call_sites.push(rec);
    }

    /// Are there no call-site records?
    pub fn is_empty(&self) -> (r: bool)
        ensures
            r == (self@.len() == 0),
    {
        self.call_sites.len() == 0
    }

    /// Serialise to `.gcc_except_table` bytes.
    pub fn build(&self) -> (out: Vec<u8>)
        ensures
            out@ == lsda_bytes(self@),
    {
        let mut table: Vec<u8> = Vec::new();
        let mut i: usize = 0;
        while i < self.call_sites.len()
            invariant
                i <= self.call_sites.len(),
                table@ == call_site_table(self.call_sites@.subrange(0, i as int)),
            decreases self.call_sites.len() - i,
        {
            let rec = self.call_sites[i];
            write_uleb128(&mut table, rec.call_start as u64);
            write_uleb128(&mut table, rec.call_len as u64);
            write_uleb128(&mut table, rec.landing_pad as u64);
            write_uleb128(&mut table, rec.action as u64);
            i = i + 1;
            assert(self.call_sites@.subrange(0, i as int).drop_last() =~= self.call_sites@.subrange(0, i - 1));
        }
        assert(self.call_sites@.subrange(0, i as int) =~= self.call_sites@);
        let mut out: Vec<u8> = Vec::new();
        out.push(0xff);
        out.push(0xff);
        out.push(0x01);
        write_uleb128(&mut out, table.len() as u64);
        append_bytes(&mut out, table.as_slice());
        assert(out@ =~= lsda_bytes(self@));
        out
    }
}

impl Default for LsdaBuilder {
    fn default() -> (r: LsdaBuilder)
        ensures
            r@ == Seq::<CallSiteRecord>::empty(),
    {
        LsdaBuilder::new()
    }
}

/// Little-endian bytes of a 32-bit word.
pub open spec fn le32(x: u32) -> Seq<u8> {
    seq![(x % 256) as u8, ((x / 256) % 256) as u8, ((x / 65536) % 256) as u8, (x / 16777216) as u8]
}

/// Append the little-endian bytes of `x` to `out`.
pub fn push_u32_le(out: &mut Vec<u8>, x: u32)
    ensures
        final(out)@ == old(out)@ + le32(x),
{
    let b0 = (x & 0xff) as u8;
    let b1 = ((x >> 8) & 0xff) as u8;
    let b2 = ((x >> 16) & 0xff) as u8;
    let b3 = (x >> 24) as u8;
    assert(b0 == (x % 256) as u8 && b1 == ((x / 256) % 256) as u8 && b2 == ((x / 65536) % 256) as u8
        && b3 == (x / 16777216) as u8) by (bit_vector)
        requires
            b0 == (x & 0xff) as u8,
            b1 == ((x >> 8) & 0xff) as u8,
            b2 == ((x >> 16) & 0xff) as u8,
            b3 == (x >> 24) as u8,
    ;
    out.push(b0);
    out.push(b1);
    out.push(b2);
    out.push(b3);
    assert(final(out)@ =~= old(out)@ + le32(x)) by {
        assert(out@ =~= old(out)@ + le32(x));
    }
}

/// Reading four little-endian bytes back gives the word they encode.
pub proof fn lemma_le32_roundtrip(x: u32)
    ensures
        le32(x).len() == 4,
        le32(x)[0] + 256 * le32(x)[1] + 65536 * le32(x)[2] + 16777216 * le32(x)[3] == x,
{
}

/// `e` inserted into `s` after every element whose IP offset is not greater
/// than its own (the step of a stable insertion sort).
pub open spec fn insert_by_ip(s: Seq<(u32, i32)>, e: (u32, i32)) -> Seq<(u32, i32)>
    decreases s.len(),
{
    if s.len() == 0 {
        seq![e]
    } else if s.last().0 <= e.0 {
        s.push(e)
    } else {
        insert_by_ip(s.drop_last(), e).push(s.last())
    }
}

/// `s` sorted by IP offset, stably (entries with equal offsets keep their order).
pub open spec fn sort_by_ip(s: Seq<(u32, i32)>) -> Seq<(u32, i32)>
    decreases s.len(),
{
    if s.len() == 0 {
        s
    } else {
        insert_by_ip(sort_by_ip(s.drop_last()), s.last())
    }
}

/// `s` is in ascending IP-offset order.
pub open spec fn sorted_by_ip(s: Seq<(u32, i32)>) -> bool {
    forall|i: int, j: int| 0 <= i <= j < s.len() ==> s[i].0 <= s[j].0
}

/// Encoding of the IP-to-state entries, each as IP then state, little-endian.
pub open spec fn entry_bytes(s: Seq<(u32, i32)>) -> Seq<u8>
    decreases s.len(),
{
    if s.len() == 0 {
        Seq::empty()
    } else {
        entry_bytes(s.drop_last()) + le32(s.last().0) + le32(s.last().1 as u32)
    }
}

/// `__CxxFrameHandler3` magic number.
pub const CXX_FRAME_MAGIC: u32 = 0x1993_0522;

/// The serialised `FuncInfo`: magic, entry count (as maxState), entry count
/// (as IP-map length), then the entries sorted by IP offset.
pub open spec fn xdata_bytes(entries: Seq<(u32, i32)>) -> Seq<u8> {
    let sorted = sort_by_ip(entries);
    le32(CXX_FRAME_MAGIC) + le32(entries.len() as u32) + le32(entries.len() as u32) + entry_bytes(sorted)
}

/// Inserting at the position found by scanning back over larger offsets is
/// the insertion step.
proof fn lemma_insert_at(s: Seq<(u32, i32)>, e: (u32, i32), j: int)
    requires
        0 <= j <= s.len(),
        forall|k: int| j <= k < s.len() ==> s[k].0 > e.0,
        j == 0 || s[j - 1].0 <= e.0,
    ensures
        insert_by_ip(s, e) == s.subrange(0, j) + seq![e] + s.subrange(j, s.len() as int),
    decreases s.len(),
{
    if s.len() == 0 {
        assert(s.subrange(0, j) + seq![e] + s.subrange(j, s.len() as int) =~= seq![e]);
    } else if s.last().0 <= e.0 {
        assert(j == s.len());
        assert(s.subrange(0, j) + seq![e] + s.subrange(j, s.len() as int) =~= s.push(e));
    } else {
        let t = s.drop_last();
        lemma_insert_at(t, e, j);
        assert(s.subrange(0, j) + seq![e] + s.subrange(j, s.len() as int) =~= (t.subrange(0, j) + seq![e]
            + t.subrange(j, t.len() as int)).push(s.last()));
    }
}

/// Insertion into a sorted sequence keeps it sorted and adds exactly `e`.
proof fn lemma_insert_sorted(s: Seq<(u32, i32)>, e: (u32, i32))
    requires
        sorted_by_ip(s),
    ensures
        sorted_by_ip(insert_by_ip(s, e)),
        insert_by_ip(s, e).to_multiset() == s.to_multiset().insert(e),
        insert_by_ip(s, e).len() == s.len() + 1,
    decreases s.len(),
{
    broadcast use vstd::seq_lib::group_seq_properties, vstd::multiset::group_multiset_properties;

    if s.len() == 0 {
        assert(seq![e] =~= s.push(e));
    } else if s.last().0 <= e.0 {
    } else {
        let t = s.drop_last();
        let last = s.last();
        assert(sorted_by_ip(t));
        lemma_insert_sorted(t, e);
        let u = insert_by_ip(t, e);
        assert(s =~= t.push(last));
        assert(u.push(last).to_multiset() =~= s.to_multiset().insert(e));
        assert forall|i: int, j: int| 0 <= i <= j < u.push(last).len() implies u.push(last)[i].0
            <= u.push(last)[j].0 by {
            if j == u.len() && i < u.len() {
                assert(u.contains(u[i]));
                assert(u.to_multiset().count(u[i]) > 0);
                if u[i] != e {
                    assert(t.to_multiset().count(u[i]) > 0);
                    assert(t.contains(u[i]));
                    let k = choose|k: int| 0 <= k < t.len() && t[k] == u[i];
                    assert(s[k] == t[k]);
                }
            }
        }
    }
}

/// Stable insertion sort by IP offset yields an ascending sequence with the
/// same entries.
pub proof fn lemma_sort_by_ip(s: Seq<(u32, i32)>)
    ensures
        sorted_by_ip(sort_by_ip(s)),
        sort_by_ip(s).to_multiset() == s.to_multiset(),
        sort_by_ip(s).len() == s.len(),
    decreases s.len(),
{
    broadcast use vstd::seq_lib::group_seq_properties, vstd::multiset::group_multiset_properties;

    if s.len() > 0 {
        lemma_sort_by_ip(s.drop_last());
        lemma_insert_sorted(sort_by_ip(s.drop_last()), s.last());
        assert(s =~= s.drop_last().push(s.last()));
    }
}

/// The entries of `s` whose IP offset is `v`, in order.
pub open spec fn with_ip(s: Seq<(u32, i32)>, v: u32) -> Seq<(u32, i32)>
    decreases s.len(),
{
    if s.len() == 0 {
        Seq::empty()
    } else {
        let r = with_ip(s.drop_last(), v);
        if s.last().0 == v {
            r.push(s.last())
        } else {
            r
        }
    }
}

proof fn lemma_with_ip_insert(t: Seq<(u32, i32)>, e: (u32, i32), v: u32)
    ensures
        with_ip(insert_by_ip(t, e), v) == if e.0 == v {
            with_ip(t, v).push(e)
        } else {
            with_ip(t, v)
        },
    decreases t.len(),
{
    if t.len() == 0 {
        assert(insert_by_ip(t, e) == seq![e]);
        assert(seq![e].drop_last() =~= t);
        assert(with_ip(t, v) == Seq::<(u32, i32)>::empty());
    } else if t.last().0 <= e.0 {
        assert(insert_by_ip(t, e) == t.push(e));
        assert(t.push(e).drop_last() =~= t);
    } else {
        let u = insert_by_ip(t.drop_last(), e);
        lemma_with_ip_insert(t.drop_last(), e, v);
        assert(insert_by_ip(t, e) == u.push(t.last()));
        assert(u.push(t.last()).drop_last() =~= u);
        assert(with_ip(u.push(t.last()), v) == if t.last().0 == v {
            with_ip(u, v).push(t.last())
        } else {
            with_ip(u, v)
        });
    }
}

/// The insertion sort is stable: for every IP offset, the entries with that
/// offset come out in the order they went in.
pub proof fn lemma_sort_by_ip_stable(s: Seq<(u32, i32)>, v: u32)
    ensures
        with_ip(sort_by_ip(s), v) == with_ip(s, v),
    decreases s.len(),
{
    if s.len() > 0 {
        lemma_sort_by_ip_stable(s.drop_last(), v);
        lemma_with_ip_insert(sort_by_ip(s.drop_last()), s.last(), v);
    }
}

proof fn lemma_entry_bytes(s: Seq<(u32, i32)>)
    ensures
        entry_bytes(s).len() == 8 * s.len(),
        forall|j: int|
            0 <= j < s.len() ==> entry_bytes(s).subrange(8 * j, 8 * j + 4) == le32((#[trigger] s[j]).0) && entry_bytes(s).subrange(
                8 * j + 4,
                8 * j + 8,
            ) == le32(s[j].1 as u32),
    decreases s.len(),
{
    if s.len() > 0 {
        let t = s.drop_last();
        lemma_entry_bytes(t);
        let e = entry_bytes(s);
        assert(e == entry_bytes(t) + le32(s.last().0) + le32(s.last().1 as u32));
        assert forall|j: int| 0 <= j < s.len() implies e.subrange(8 * j, 8 * j + 4) == le32((#[trigger] s[j]).0)
            && e.subrange(8 * j + 4, 8 * j + 8) == le32(s[j].1 as u32) by {
            if j < t.len() {
                assert(e.subrange(8 * j, 8 * j + 4) =~= entry_bytes(t).subrange(8 * j, 8 * j + 4));
                assert(e.subrange(8 * j + 4, 8 * j + 8) =~= entry_bytes(t).subrange(8 * j + 4, 8 * j + 8));
                assert(s[j] == t[j]);
            } else {
                assert(e.subrange(8 * j, 8 * j + 4) =~= le32(s.last().0));
                assert(e.subrange(8 * j + 4, 8 * j + 8) =~= le32(s.last().1 as u32));
            }
        }
    }
}

/// The layout of the serialised `FuncInfo` for entries `s` (in add order):
/// 12 + 8 bytes per entry; the magic; the entry count twice; then, for each
/// entry of the stable sort by IP offset, its IP and its state, both
/// little-endian. The sorted entries are ascending by IP, are the added ones
/// (each state still paired with its IP), and entries with the same IP keep
/// their add order.
pub proof fn lemma_xdata_layout(s: Seq<(u32, i32)>)
    ensures
        xdata_bytes(s).len() == 12 + 8 * s.len(),
        xdata_bytes(s).subrange(0, 4) == le32(CXX_FRAME_MAGIC),
        xdata_bytes(s).subrange(4, 8) == le32(s.len() as u32),
        xdata_bytes(s).subrange(8, 12) == le32(s.len() as u32),
        sort_by_ip(s).len() == s.len(),
        forall|j: int|
            0 <= j < s.len() ==> xdata_bytes(s).subrange(12 + 8 * j, 16 + 8 * j) == le32((#[trigger] sort_by_ip(s)[j]).0)
                && xdata_bytes(s).subrange(16 + 8 * j, 20 + 8 * j) == le32(sort_by_ip(s)[j].1 as u32),
        sorted_by_ip(sort_by_ip(s)),
        sort_by_ip(s).to_multiset() == s.to_multiset(),
        forall|v: u32| #[trigger] with_ip(sort_by_ip(s), v) == with_ip(s, v),
{
    let sorted = sort_by_ip(s);
    lemma_sort_by_ip(s);
    lemma_entry_bytes(sorted);
    let header = le32(CXX_FRAME_MAGIC) + le32(s.len() as u32) + le32(s.len() as u32);
    let out = xdata_bytes(s);
    assert(out == header + entry_bytes(sorted));
    assert(out.subrange(0, 4) =~= le32(CXX_FRAME_MAGIC));
    assert(out.subrange(4, 8) =~= le32(s.len() as u32));
    assert(out.subrange(8, 12) =~= le32(s.len() as u32));
    assert forall|j: int| 0 <= j < s.len() implies out.subrange(12 + 8 * j, 16 + 8 * j) == le32((#[trigger] sorted[j]).0)
        && out.subrange(16 + 8 * j, 20 + 8 * j) == le32(sorted[j].1 as u32) by {
        assert(out.subrange(12 + 8 * j, 16 + 8 * j) =~= entry_bytes(sorted).subrange(8 * j, 8 * j + 4));
        assert(out.subrange(16 + 8 * j, 20 + 8 * j) =~= entry_bytes(sorted).subrange(8 * j + 4, 8 * j + 8));
    }
    assert forall|v: u32| #[trigger] with_ip(sort_by_ip(s), v) == with_ip(s, v) by {
        lemma_sort_by_ip_stable(s, v);
    }
}

/// Adding an IP/state pair to a builder holding `s` grows the serialised blob
/// by eight bytes, makes both counts one larger, and keeps every earlier
/// entry: the entries after the add are those before plus the new pair.
pub proof fn lemma_add_ip_state_grows(s: Seq<(u32, i32)>, ip_offset: u32, state: i32)
    ensures
        xdata_bytes(s.push((ip_offset, state))).len() == xdata_bytes(s).len() + 8,
        xdata_bytes(s.push((ip_offset, state))).subrange(4, 8) == le32((s.len() + 1) as u32),
        xdata_bytes(s.push((ip_offset, state))).subrange(8, 12) == le32((s.len() + 1) as u32),
        sort_by_ip(s.push((ip_offset, state))).to_multiset() == sort_by_ip(s).to_multiset().insert((ip_offset, state)),
{
    broadcast use vstd::seq_lib::group_seq_properties, vstd::multiset::group_multiset_properties;

    let t = s.push((ip_offset, state));
    lemma_xdata_layout(s);
    lemma_xdata_layout(t);
    assert(t.drop_last() =~= s);
    assert(t.to_multiset() =~= s.to_multiset().insert((ip_offset, state)));
}

/// Builder for the minimal MSVC `__CxxFrameHandler3` `FuncInfo` (IP-to-state map).
pub struct XdataBuilder {
    ip_to_state: Vec<(u32, i32)>,
}

impl View for XdataBuilder {
    type V = Seq<(u32, i32)>;

    closed spec fn view(&self) -> Seq<(u32, i32)> {
        self.ip_to_state@
    }
}

impl XdataBuilder {
    /// An empty builder.
    pub fn new() -> (r: XdataBuilder)
        ensures
            r@ == Seq::<(u32, i32)>::empty(),
    {
        XdataBuilder { ip_to_state: Vec::new() }
    }

    /// Record that from `ip_offset` on the EH state is `state` (−1 = outside any try).
    pub fn add_ip_state(&mut self, ip_offset: u32, state: i32)
        ensures
            final(self)@ == old(self)@.push((ip_offset, state)),
    {
        self.ip_to_state.push((ip_offset, state));
    }

    /// Serialise to a `FuncInfo` blob.
    pub fn build(&self) -> (out: Vec<u8>)
        ensures
            out@ == xdata_bytes(self@),
    {
        let mut entries: Vec<(u32, i32)> = Vec::new();
        let mut i: usize = 0;
        while i < self.ip_to_state.len()
            invariant
                i <= self.ip_to_state.len(),
                entries@ == sort_by_ip(self.ip_to_state@.subrange(0, i as int)),
            decreases self.ip_to_state.len() - i,
        {
            let e = self.ip_to_state[i];
            let mut j = entries.len();
            while j > 0 && entries[j - 1].0 > e.0
                invariant
                    j <= entries.len(),
                    forall|k: int| j <= k < entries.len() ==> entries@[k].0 > e.0,
                decreases j,
            {
                j = j - 1;
            }
            proof {
                lemma_insert_at(entries@, e, j as int);
            }
            entries.insert(j, e);
            assert(entries@ =~= insert_by_ip(sort_by_ip(self.ip_to_state@.subrange(0, i as int)), e));
            i = i + 1;
            assert(self.ip_to_state@.subrange(0, i as int).drop_last() =~= self.ip_to_state@.subrange(0, i - 1));
        }
        assert(self.ip_to_state@.subrange(0, i as int) =~= self.ip_to_state@);
        let count = entries.len() as u32;
        proof {
            lemma_sort_by_ip(self@);
        }
        let mut out: Vec<u8> = Vec::new();
        push_u32_le(&mut out, CXX_FRAME_MAGIC);
        push_u32_le(&mut out, count);
        push_u32_le(&mut out, count);
        let ghost header = out@;
        let mut k: usize = 0;
        while k < entries.len()
            invariant
                k <= entries.len(),
                out@ == header + entry_bytes(entries@.subrange(0, k as int)),
            decreases entries.len() - k,
        {
            let (ip, st) = entries[k];
            push_u32_le(&mut out, ip);
            push_u32_le(&mut out, st as u32);
            k = k + 1;
            assert(entries@.subrange(0, k as int).drop_last() =~= entries@.subrange(0, k - 1));
        }
        assert(entries@.subrange(0, k as int) =~= entries@);
        assert(out@ =~= xdata_bytes(self@));
        out
    }
}

impl Default for XdataBuilder {
    fn default() -> (r: XdataBuilder)
        ensures
            r@ == Seq::<(u32, i32)>::empty(),
    {
        XdataBuilder::new()
    }
}

/// Views of a list of sections.
pub open spec fn section_views(s: Seq<Section>) -> Seq<SectionView> {
    s.map_values(|t: Section| t@)
}

/// Replacing one section replaces its view.
pub broadcast proof fn lemma_section_views_update(s: Seq<Section>, i: int, x: Section)
    requires
        0 <= i < s.len(),
    ensures
        #[trigger] section_views(s.update(i, x)) == section_views(s).update(i, x@),
{
    assert(section_views(s.update(i, x)) =~= section_views(s).update(i, x@));
}

/// Appending a section appends its view.
pub broadcast proof fn lemma_section_views_push(s: Seq<Section>, x: Section)
    ensures
        #[trigger] section_views(s.push(x)) == section_views(s).push(x@),
{
    assert(section_views(s.push(x)) =~= section_views(s).push(x@));
}

/// Index of the first section named `name`, if any.
pub open spec fn section_index(s: Seq<SectionView>, name: Seq<char>) -> Option<int>
    decreases s.len(),
{
    if s.len() == 0 {
        None
    } else {
        match section_index(s.drop_last(), name) {
            Some(i) => Some(i),
            None => if s.last().name == name { Some(s.len() - 1) } else { None },
        }
    }
}

/// A first match in a prefix is the first match of the whole list.
proof fn lemma_section_index_prefix(s: Seq<SectionView>, name: Seq<char>, n: int)
    requires
        0 <= n <= s.len(),
        section_index(s.subrange(0, n), name) is Some,
    ensures
        section_index(s, name) == section_index(s.subrange(0, n), name),
    decreases s.len(),
{
    if n < s.len() {
        assert(s.drop_last().subrange(0, n) =~= s.subrange(0, n));
        lemma_section_index_prefix(s.drop_last(), name, n);
    } else {
        assert(s.subrange(0, n) =~= s);
    }
}

/// The data buffer of the first section named `name` in `sections`, appending an
/// empty section with that name first when there is none.
pub fn get_or_create_section_data<'a>(sections: &'a mut Vec<Section>, name: &str) -> (data: &'a mut Vec<u8>)
    ensures
        match section_index(section_views(old(sections)@), name@) {
            Some(p) => {
                &&& data@ == old(sections)@[p].data@
                &&& section_views(final(sections)@) == section_views(old(sections)@).update(
                    p,
                    SectionView { data: final(data)@, ..old(sections)@[p]@ },
                )
            },
            None => {
                &&& data@ == Seq::<u8>::empty()
                &&& section_views(final(sections)@) == section_views(old(sections)@).push(
                    SectionView { name: name@, data: final(data)@, relocs: Seq::empty(), debug_rows: Seq::empty() },
                )
            },
        },
{
    broadcast use lemma_section_views_update, lemma_section_views_push;

    let ghost views = section_views(sections@);
    let mut i: usize = 0;
    while i < sections.len()
        invariant
            i <= sections.len(),
            views == section_views(sections@),
            sections@ == old(sections)@,
            section_index(views.subrange(0, i as int), name@) is None,
        decreases sections.len() - i,
    {
        if str_equal(sections[i].name.as_str(), name) {
            proof {
                assert(views.subrange(0, i + 1).drop_last() =~= views.subrange(0, i as int));
                lemma_section_index_prefix(views, name@, i + 1);
            }
            return &mut sections[i].data;
        }
        i = i + 1;
        assert(views.subrange(0, i as int).drop_last() =~= views.subrange(0, i - 1));
    }
    assert(views.subrange(0, i as int) =~= views);
    sections.push(Section { name: name.to_owned(), data: Vec::new(), relocs: Vec::new(), debug_rows: Vec::new() });
    let last = sections.len() - 1;
    &mut sections[last].data
}

} // verus!
