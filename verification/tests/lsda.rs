use lib::leb128::{write_sleb128, write_uleb128};
use lib::lsda::{get_or_create_section_data, CallSiteRecord, LsdaBuilder, XdataBuilder};
use lib::object::Section;

/// Decode a single ULEB128 value from the front of `buf`: `(value, bytes_consumed)`.
fn decode_uleb128(buf: &[u8]) -> (u64, usize) {
    let mut val: u64 = 0;
    let mut shift = 0u32;
    for (i, &b) in buf.iter().enumerate() {
        val |= ((b & 0x7f) as u64) << shift;
        shift += 7;
        if b & 0x80 == 0 {
            return (val, i + 1);
        }
    }
    (val, buf.len())
}

#[test]
fn lsda_uleb128_small_values() {
    let mut buf = Vec::new();
    write_uleb128(&mut buf, 0);
    assert_eq!(buf, vec![0x00]);
    buf.clear();
    write_uleb128(&mut buf, 1);
    assert_eq!(buf, vec![0x01]);
    buf.clear();
    write_uleb128(&mut buf, 127);
    assert_eq!(buf, vec![0x7f]);
    buf.clear();
    write_uleb128(&mut buf, 128);
    assert_eq!(buf, vec![0x80, 0x01]);
    buf.clear();
    write_uleb128(&mut buf, 300);
    assert_eq!(buf, vec![0xac, 0x02]);
    buf.clear();
}

#[test]
fn lsda_sleb128_values() {
    let mut buf = Vec::new();
    write_sleb128(&mut buf, 0);
    assert_eq!(buf, vec![0x00]);
    buf.clear();
    write_sleb128(&mut buf, -1);
    assert_eq!(buf, vec![0x7f]);
    buf.clear();
    write_sleb128(&mut buf, 63);
    assert_eq!(buf, vec![0x3f]);
    buf.clear();
    write_sleb128(&mut buf, -64);
    assert_eq!(buf, vec![0x40]);
    buf.clear();
}

#[test]
fn lsda_empty_produces_no_call_sites() {
    let lsda = LsdaBuilder::new();
    assert!(lsda.is_empty());
    let bytes = lsda.build();
    assert!(bytes.len() >= 4);
}

#[test]
fn lsda_empty_produces_no_bytes() {
    let lsda = LsdaBuilder::new();
    assert!(lsda.is_empty());
    let bytes = lsda.build();
    assert!(bytes.len() >= 4);
}

#[test]
fn lsda_lsda_cleanup_only_encodes_correctly() {
    let mut lsda = LsdaBuilder::new();
    lsda.add_call_site(CallSiteRecord { call_start: 0, call_len: 5, landing_pad: 20, action: 0 });
    let bytes = lsda.build();
    assert_eq!(bytes[0], 0xff);
    assert_eq!(bytes[1], 0xff);
    assert_eq!(bytes[2], 0x01);
    assert!(bytes.len() > 4);
}

#[test]
fn lsda_lsda_multiple_call_sites() {
    let mut lsda = LsdaBuilder::new();
    lsda.add_call_site(CallSiteRecord { call_start: 0, call_len: 5, landing_pad: 30, action: 0 });
    lsda.add_call_site(CallSiteRecord { call_start: 10, call_len: 5, landing_pad: 50, action: 0 });
    lsda.add_call_site(CallSiteRecord { call_start: 20, call_len: 5, landing_pad: 0, action: 0 });
    let bytes = lsda.build();
    assert!(bytes.len() > 10);
}

#[test]
fn lsda_lsda_no_landing_pad_zero() {
    let mut lsda = LsdaBuilder::new();
    lsda.add_call_site(CallSiteRecord { call_start: 4, call_len: 5, landing_pad: 0, action: 0 });
    let bytes = lsda.build();
    assert!(bytes.contains(&0));
}

#[test]
fn lsda_lsda_round_trip_decode() {
    let mut lsda = LsdaBuilder::new();
    lsda.add_call_site(CallSiteRecord { call_start: 8, call_len: 5, landing_pad: 42, action: 0 });
    let bytes = lsda.build();
    let mut pos = 3usize;
    let (_cs_table_len, advance) = decode_uleb128(&bytes[pos..]);
    pos += advance;
    let (cs_start, a) = decode_uleb128(&bytes[pos..]);
    pos += a;
    let (cs_len, b) = decode_uleb128(&bytes[pos..]);
    pos += b;
    let (cs_lp, _) = decode_uleb128(&bytes[pos..]);
    assert_eq!(cs_start, 8);
    assert_eq!(cs_len, 5);
    assert_eq!(cs_lp, 42);
}

#[test]
fn lsda_lsda_large_offset_uleb128() {
    let mut lsda = LsdaBuilder::new();
    lsda.add_call_site(CallSiteRecord { call_start: 200, call_len: 5, landing_pad: 500, action: 0 });
    let bytes = lsda.build();
    assert!(bytes.len() >= 10);
}

#[test]
fn lsda_cs_table_length_field_correct() {
    let mut lsda = LsdaBuilder::new();
    lsda.add_call_site(CallSiteRecord { call_start: 0, call_len: 5, landing_pad: 10, action: 0 });
    let bytes = lsda.build();
    let (cs_table_len, advance) = decode_uleb128(&bytes[3..]);
    let table_start = 3 + advance;
    let table_end = bytes.len();
    assert_eq!(
        cs_table_len as usize,
        table_end - table_start,
        "cs_table_length field must match actual call-site table byte count"
    );
}

#[test]
fn lsda_xdata_magic_bytes_correct() {
    let xd = XdataBuilder::new();
    let bytes = xd.build();
    assert_eq!(&bytes[0..4], &[0x22, 0x05, 0x93, 0x19]);
}

#[test]
fn lsda_xdata_empty_has_zero_count() {
    let xd = XdataBuilder::new();
    let bytes = xd.build();
    let max_state = u32::from_le_bytes([bytes[4], bytes[5], bytes[6], bytes[7]]);
    assert_eq!(max_state, 0);
    let ip_count = u32::from_le_bytes([bytes[8], bytes[9], bytes[10], bytes[11]]);
    assert_eq!(ip_count, 0);
    assert_eq!(bytes.len(), 12);
}

#[test]
fn lsda_xdata_entries_sorted_by_ip() {
    let mut xd = XdataBuilder::new();
    xd.add_ip_state(30, 1);
    xd.add_ip_state(10, 0);
    xd.add_ip_state(20, 2);
    let bytes = xd.build();
    let ip_count = u32::from_le_bytes([bytes[8], bytes[9], bytes[10], bytes[11]]);
    assert_eq!(ip_count, 3);
    let first_ip = u32::from_le_bytes([bytes[12], bytes[13], bytes[14], bytes[15]]);
    assert_eq!(first_ip, 10);
    let second_ip = u32::from_le_bytes([bytes[20], bytes[21], bytes[22], bytes[23]]);
    assert_eq!(second_ip, 20);
    let third_ip = u32::from_le_bytes([bytes[28], bytes[29], bytes[30], bytes[31]]);
    assert_eq!(third_ip, 30);
}

#[test]
fn xdata_entry_states_preserved() {
    let mut xd = XdataBuilder::new();
    xd.add_ip_state(0, -1);
    xd.add_ip_state(8, 0);
    let bytes = xd.build();
    let state0 = i32::from_le_bytes([bytes[16], bytes[17], bytes[18], bytes[19]]);
    assert_eq!(state0, -1);
    let state1 = i32::from_le_bytes([bytes[24], bytes[25], bytes[26], bytes[27]]);
    assert_eq!(state1, 0);
}

#[test]
fn lsda_get_or_create_section_creates_new() {
    let mut sections: Vec<Section> = Vec::new();
    let data = get_or_create_section_data(&mut sections, ".gcc_except_table");
    data.push(0xAB);
    assert_eq!(sections.len(), 1);
    assert_eq!(sections[0].name, ".gcc_except_table");
    assert_eq!(sections[0].data, vec![0xAB]);
}

#[test]
fn lsda_get_or_create_section_finds_existing() {
    let mut sections: Vec<Section> = vec![Section {
        name: ".gcc_except_table".into(),
        data: vec![0x01],
        relocs: Vec::new(),
        debug_rows: Vec::new(),
    }];
    let data = get_or_create_section_data(&mut sections, ".gcc_except_table");
    data.push(0x02);
    assert_eq!(sections.len(), 1);
    assert_eq!(sections[0].data, vec![0x01, 0x02]);
}

#[test]
fn get_or_create_section_does_not_confuse_different_names() {
    let mut sections: Vec<Section> = vec![Section {
        name: ".text".into(),
        data: vec![0x90],
        relocs: Vec::new(),
        debug_rows: Vec::new(),
    }];
    let data = get_or_create_section_data(&mut sections, ".gcc_except_table");
    data.push(0xFF);
    assert_eq!(sections.len(), 2);
    assert_eq!(sections[1].name, ".gcc_except_table");
    assert_eq!(sections[1].data, vec![0xFF]);
}

#[test]
fn lsda_exact_bytes_for_one_record() {
    let mut lsda = LsdaBuilder::new();
    lsda.add_call_site(CallSiteRecord { call_start: 200, call_len: 5, landing_pad: 500, action: 1 });
    assert!(!lsda.is_empty());
    assert_eq!(lsda.build(), vec![0xff, 0xff, 0x01, 0x06, 0xc8, 0x01, 0x05, 0xf4, 0x03, 0x01]);
}

#[test]
fn xdata_equal_offsets_keep_insertion_order() {
    let mut xd = XdataBuilder::new();
    xd.add_ip_state(4, 7);
    xd.add_ip_state(4, -2);
    let bytes = xd.build();
    assert_eq!(i32::from_le_bytes([bytes[16], bytes[17], bytes[18], bytes[19]]), 7);
    assert_eq!(i32::from_le_bytes([bytes[24], bytes[25], bytes[26], bytes[27]]), -2);
}

#[test]
fn leb128_round_trips_large_values() {
    let mut buf = Vec::new();
    write_uleb128(&mut buf, u64::MAX);
    assert_eq!(buf.len(), 10);
    assert_eq!(decode_uleb128(&buf), (u64::MAX, 10));
    buf.clear();
    write_sleb128(&mut buf, i64::MIN);
    assert_eq!(buf.len(), 10);
    assert_eq!(buf[9], 0x7f);
}

#[test]
fn xdata_add_ip_state_grows_by_eight_and_keeps_entries() {
    let mut xd = XdataBuilder::new();
    xd.add_ip_state(16, 1);
    xd.add_ip_state(4, 0);
    let before = xd.build();
    xd.add_ip_state(8, 2);
    let after = xd.build();
    assert_eq!(after.len(), before.len() + 8);
    assert_eq!(u32::from_le_bytes([after[4], after[5], after[6], after[7]]), 3);
    assert_eq!(u32::from_le_bytes([after[8], after[9], after[10], after[11]]), 3);
    let entries: Vec<(u32, i32)> = (0..3)
        .map(|j| {
            let o = 12 + 8 * j;
            (
                u32::from_le_bytes([after[o], after[o + 1], after[o + 2], after[o + 3]]),
                i32::from_le_bytes([after[o + 4], after[o + 5], after[o + 6], after[o + 7]]),
            )
        })
        .collect();
    assert_eq!(entries, vec![(4, 0), (8, 2), (16, 1)]);
}

#[test]
fn xdata_equal_ips_keep_add_order() {
    let mut xd = XdataBuilder::new();
    xd.add_ip_state(8, 5);
    xd.add_ip_state(0, -1);
    xd.add_ip_state(8, 6);
    xd.add_ip_state(8, 7);
    let bytes = xd.build();
    assert_eq!(bytes.len(), 12 + 8 * 4);
    let states: Vec<i32> = (0..4)
        .map(|j| {
            let o = 16 + 8 * j;
            i32::from_le_bytes([bytes[o], bytes[o + 1], bytes[o + 2], bytes[o + 3]])
        })
        .collect();
    assert_eq!(states, vec![-1, 5, 6, 7]);
}
