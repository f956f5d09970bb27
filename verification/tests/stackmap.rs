use std::collections::HashMap;
use ykrt::smp::StackMapParser;
use ykrt::stackmap::{Location, ParseError};

fn loc(kind: u8, size: u16, dwreg: u16, imm: u32) -> Vec<u8> {
    let mut v = vec![kind, 0];
    v.extend_from_slice(&size.to_le_bytes());
    v.extend_from_slice(&dwreg.to_le_bytes());
    v.extend_from_slice(&[0, 0]);
    v.extend_from_slice(&imm.to_le_bytes());
    v
}

fn record(id: u64, offset: u32, locs: &[Vec<u8>], liveouts: u16) -> Vec<u8> {
    let mut v = Vec::new();
    v.extend_from_slice(&id.to_le_bytes());
    v.extend_from_slice(&offset.to_le_bytes());
    v.extend_from_slice(&[0, 0]);
    v.extend_from_slice(&(locs.len() as u16).to_le_bytes());
    for l in locs {
        v.extend_from_slice(l);
    }
    while v.len() % 8 != 0 {
        v.push(0);
    }
    v.extend_from_slice(&[0, 0]);
    v.extend_from_slice(&liveouts.to_le_bytes());
    for i in 0..liveouts {
        v.extend_from_slice(&i.to_le_bytes());
        v.push(8);
    }
    while v.len() % 8 != 0 {
        v.push(0);
    }
    v
}

fn prologue(hasfp: u8, spills: &[(u16, i32)]) -> Vec<u8> {
    let mut v = vec![hasfp, 0];
    v.extend_from_slice(&(spills.len() as u32).to_le_bytes());
    for (reg, off) in spills {
        v.extend_from_slice(&reg.to_le_bytes());
        v.extend_from_slice(&[0, 0]);
        v.extend_from_slice(&off.to_le_bytes());
    }
    v
}

/// A section: the functions as (addr, stack size, records), the constant
/// pool and one prologue for each function.
fn section(funcs: &[(u64, u64, Vec<Vec<u8>>)], consts: &[u64], prologues: &[Vec<u8>]) -> Vec<u8> {
    let mut v = vec![3, 0, 0, 0];
    v.extend_from_slice(&(funcs.len() as u32).to_le_bytes());
    v.extend_from_slice(&(consts.len() as u32).to_le_bytes());
    let total: usize = funcs.iter().map(|f| f.2.len()).sum();
    v.extend_from_slice(&(total as u32).to_le_bytes());
    for (addr, stack_size, recs) in funcs {
        v.extend_from_slice(&addr.to_le_bytes());
        v.extend_from_slice(&stack_size.to_le_bytes());
        v.extend_from_slice(&(recs.len() as u64).to_le_bytes());
    }
    for c in consts {
        v.extend_from_slice(&c.to_le_bytes());
    }
    for (_, _, recs) in funcs {
        for r in recs {
            v.extend_from_slice(r);
        }
    }
    for p in prologues {
        v.extend_from_slice(p);
    }
    v
}

fn simple_section() -> Vec<u8> {
    let locs = vec![loc(2, 8, 6, (-4i32) as u32), loc(2, 8, 6, (-8i32) as u32)];
    section(&[(0x1000, 24, vec![record(0, 0x14, &locs, 0)])], &[], &[prologue(1, &[])])
}

fn deopt_section() -> Vec<u8> {
    let locs = vec![
        loc(4, 8, 0, 0),
        loc(4, 8, 0, 0),
        loc(4, 8, 0, 2),
        loc(2, 8, 7, 12),
        loc(2, 8, 7, 8),
    ];
    let mut v = section(
        &[(0x401000, 40, vec![record(1, 0, &locs, 0)])],
        &[],
        &[prologue(1, &[(3, -8), (12, -16)])],
    );
    v.resize(240, 0);
    v
}

#[test]
fn lib_test_simple() {
    let data = simple_section();
    let map = StackMapParser::parse(&data).unwrap();
    let locs = &map.iter().nth(0).unwrap().1;
    assert_eq!(locs.len(), 2);
    assert!(matches!(locs[0], Location::Direct(6, -4, _)));
    assert!(matches!(locs[1], Location::Direct(6, -8, _)));
}

#[test]
fn test_deopt() {
    let data = deopt_section();
    let map = StackMapParser::parse(&data).unwrap();
    let locs = &map.iter().nth(0).unwrap().1;
    assert_eq!(locs.len(), 5);
    assert!(matches!(locs[0], Location::Constant(0)));
    assert!(matches!(locs[1], Location::Constant(0)));
    assert!(matches!(locs[2], Location::Constant(2)));
    assert!(matches!(locs[3], Location::Direct(7, 12, _)));
    assert!(matches!(locs[4], Location::Direct(7, 8, _)));
}

#[test]
fn stackmap_fixture_is_keyed_to_the_function_address() {
    let data = deopt_section();
    assert_eq!(data.len(), 240);
    let map: HashMap<u64, Vec<Location>> = StackMapParser::parse(&data).unwrap();
    assert_eq!(map.len(), 1);
    assert_eq!(
        map[&0x401000],
        vec![
            Location::Constant(0),
            Location::Constant(0),
            Location::Constant(2),
            Location::Direct(7, 12, 8),
            Location::Direct(7, 8, 8),
        ]
    );
}

#[test]
fn by_id_lists_entries_from_the_last_function_to_the_first() {
    let a = vec![record(7, 4, &[loc(1, 8, 3, 0)], 2), record(8, 9, &[], 0)];
    let b = vec![record(9, 1, &[loc(5, 8, 0, 1), loc(3, 4, 6, (-24i32) as u32)], 1)];
    let data = section(
        &[(0x100, 16, a), (0x200, 32, b)],
        &[0x1122_3344_5566_7788, 0xffff_ffff_ffff_fff0],
        &[prologue(0, &[(6, -8)]), prologue(1, &[])],
    );
    let entries = StackMapParser::by_id(&data);
    assert_eq!(entries.len(), 2);
    // The second function (and its prologue) comes first.
    assert!(entries[0].pinfo.hasfp);
    assert!(entries[0].pinfo.csrs.is_empty());
    assert_eq!(entries[0].records.len(), 1);
    let r = &entries[0].records[0];
    assert_eq!((r.id, r.offset, r.size), (9, 0x201, 32));
    assert!(r.pinfo.is_none());
    assert_eq!(
        r.locs,
        vec![Location::LargeConstant(0xffff_ffff_ffff_fff0), Location::Indirect(6, -24, 4)]
    );
    assert!(!entries[1].pinfo.hasfp);
    assert_eq!(entries[1].pinfo.csrs, vec![(6u16, -8i32)]);
    assert_eq!(entries[1].records.len(), 2);
    assert_eq!(entries[1].records[0].offset, 0x104);
    assert_eq!(entries[1].records[0].locs, vec![Location::Register(3, 8)]);
    assert_eq!(entries[1].records[1].offset, 0x109);
    assert_eq!(entries[1].records[1].size, 16);
    // As many records as the header declares.
    let total: usize = entries.iter().map(|e| e.records.len()).sum();
    assert_eq!(total as u32, u32::from_le_bytes([data[12], data[13], data[14], data[15]]));
}

#[test]
fn later_record_at_one_address_wins() {
    let recs = vec![record(1, 8, &[loc(4, 8, 0, 1)], 0), record(2, 8, &[loc(4, 8, 0, 2)], 0)];
    let data = section(&[(0x10, 0, recs)], &[], &[prologue(0, &[])]);
    let map = StackMapParser::parse(&data).unwrap();
    assert_eq!(map.len(), 1);
    assert_eq!(map[&0x18], vec![Location::Constant(2)]);
}

#[test]
fn empty_section_is_cut_short() {
    assert_eq!(StackMapParser::parse(&[]).unwrap_err(), ParseError::UnexpectedEnd);
}

#[test]
fn other_versions_are_refused() {
    let mut data = simple_section();
    data[0] = 2;
    assert_eq!(StackMapParser::parse(&data).unwrap_err(), ParseError::UnsupportedVersion);
}

#[test]
fn version_two_is_refused_in_words() {
    let data = [2u8, 0, 0, 0, 0, 0, 0, 0, 0, 0, 0, 0, 0, 0, 0, 0];
    let e = StackMapParser::parse(&data).unwrap_err();
    assert_eq!(e, ParseError::UnsupportedVersion);
    assert_eq!(e.message(), "Only stackmap format version 3 is supported.");
}

#[test]
fn parse_error_messages_differ() {
    let all = [
        ParseError::UnexpectedEnd,
        ParseError::UnsupportedVersion,
        ParseError::ReservedNotZero,
        ParseError::RecordCountMismatch,
        ParseError::UnknownLocationKind,
        ParseError::BadConstantIndex,
        ParseError::OffsetOverflow,
        ParseError::BadFramePointerFlag,
    ];
    for (i, a) in all.iter().enumerate() {
        assert!(!a.message().is_empty());
        for b in &all[..i] {
            assert_ne!(a.message(), b.message());
        }
    }
}

#[test]
fn bytes_after_the_last_prologue_are_ignored() {
    let mut data = simple_section();
    let plain = StackMapParser::by_id(&data);
    data.extend_from_slice(&[0xff; 13]);
    let padded = StackMapParser::by_id(&data);
    assert_eq!(plain.len(), padded.len());
    assert_eq!(plain[0].records[0].locs, padded[0].records[0].locs);
    assert_eq!(plain[0].records[0].offset, padded[0].records[0].offset);
}

#[test]
fn reserved_header_bytes_must_be_zero() {
    let mut data = simple_section();
    data[2] = 1;
    assert_eq!(StackMapParser::parse(&data).unwrap_err(), ParseError::ReservedNotZero);
}

#[test]
fn record_counts_must_add_up() {
    let mut data = simple_section();
    data[12] = 2;
    assert_eq!(StackMapParser::parse(&data).unwrap_err(), ParseError::RecordCountMismatch);
}

#[test]
fn unknown_location_kind_is_refused() {
    let data = section(&[(0, 0, vec![record(0, 0, &[loc(6, 8, 0, 0)], 0)])], &[], &[prologue(0, &[])]);
    assert_eq!(StackMapParser::parse(&data).unwrap_err(), ParseError::UnknownLocationKind);
}

#[test]
fn constant_index_must_be_in_the_pool() {
    let data = section(&[(0, 0, vec![record(0, 0, &[loc(5, 8, 0, 1)], 0)])], &[9], &[prologue(0, &[])]);
    assert_eq!(StackMapParser::parse(&data).unwrap_err(), ParseError::BadConstantIndex);
    let data = section(
        &[(0, 0, vec![record(0, 0, &[loc(5, 8, 0, (-1i32) as u32)], 0)])],
        &[9],
        &[prologue(0, &[])],
    );
    assert_eq!(StackMapParser::parse(&data).unwrap_err(), ParseError::BadConstantIndex);
}

#[test]
fn record_offset_must_stay_in_the_address_space() {
    let data = section(&[(u64::MAX, 0, vec![record(0, 1, &[], 0)])], &[], &[prologue(0, &[])]);
    assert_eq!(StackMapParser::parse(&data).unwrap_err(), ParseError::OffsetOverflow);
}

#[test]
fn frame_pointer_flag_is_zero_or_one() {
    let data = section(&[(0, 0, vec![record(0, 0, &[], 0)])], &[], &[prologue(2, &[])]);
    assert_eq!(StackMapParser::parse(&data).unwrap_err(), ParseError::BadFramePointerFlag);
}

#[test]
fn missing_prologue_is_cut_short() {
    let data = section(&[(0, 0, vec![record(0, 0, &[], 0)])], &[], &[]);
    assert_eq!(StackMapParser::parse(&data).unwrap_err(), ParseError::UnexpectedEnd);
}

#[test]
fn fields_are_little_endian() {
    let locs = vec![loc(3, 0x0102, 0x0304, 0x8000_0001)];
    let data = section(
        &[(0x0102_0304_0506_0708, 0x1112_1314_1516_1718, vec![record(0x2122_2324_2526_2728, 0x10, &locs, 0)])],
        &[],
        &[prologue(1, &[(0x4142, i32::MIN)])],
    );
    let entries = StackMapParser::by_id(&data);
    let r = &entries[0].records[0];
    assert_eq!(r.id, 0x2122_2324_2526_2728);
    assert_eq!(r.offset, 0x0102_0304_0506_0718);
    assert_eq!(r.size, 0x1112_1314_1516_1718);
    assert_eq!(r.locs, vec![Location::Indirect(0x0304, -0x7fff_ffff, 0x0102)]);
    assert_eq!(entries[0].pinfo.csrs, vec![(0x4142u16, i32::MIN)]);
}
