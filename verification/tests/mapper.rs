use std::collections::HashMap;
use ykrt::blockmap::{BlockMap, BlockMapEntry, BlockMapError, NO_BB};
use ykrt::mapper::{Block, HWTMapper, MapError};
use ykrt::trace::TraceAction;

/// One function's part of a block-map section.
fn function_blocks(f_off: u64, blocks: &[(u64, u64, u64)]) -> Vec<u8> {
    let mut v = Vec::new();
    v.extend_from_slice(&f_off.to_le_bytes());
    leb128::write::unsigned(&mut v, blocks.len() as u64).unwrap();
    for (b_off, b_sz, b_idx) in blocks {
        leb128::write::unsigned(&mut v, *b_off).unwrap();
        leb128::write::unsigned(&mut v, *b_sz).unwrap();
        v.push(0);
        leb128::write::unsigned(&mut v, *b_idx).unwrap();
    }
    v
}

fn names(list: &[(u64, &str)]) -> HashMap<u64, String> {
    list.iter().map(|(k, v)| (*k, v.to_string())).collect()
}

fn mapped(name: &str, bb: usize) -> TraceAction {
    TraceAction::new_mapped_aot_block(name.to_string(), bb)
}

#[test]
fn block_mapper_fixture() {
    let section = function_blocks(0, &[(0x400500, 8, 1), (0x400508, 8, 2)]);
    let map = BlockMap::new(&section).unwrap();
    assert_eq!(map.len(), 2);
    let mut mapper = HWTMapper::new(names(&[(0, "f")]));
    let block = Block { first_instr: 0x400500, last_instr: 0x40050f };
    let actions = mapper.map_block(&map, &block).unwrap();
    assert_eq!(actions, vec![mapped("f", 1), mapped("f", 2)]);
    assert_eq!(mapper.faddrs(), &vec![("f".to_string(), 0u64), ("f".to_string(), 0u64)]);
}

#[test]
fn the_last_instruction_of_a_block_counts() {
    let section = function_blocks(0x100, &[(0, 0x10, 0), (0x10, 0x10, 1), (0x20, 0x10, 2)]);
    let map = BlockMap::new(&section).unwrap();
    let mut mapper = HWTMapper::new(names(&[(0x100, "main")]));
    let mut run = |first, last| {
        mapper.map_block(&map, &Block { first_instr: first, last_instr: last }).unwrap()
    };
    // A block of one instruction, at the start of a machine block and inside one.
    assert_eq!(run(0x110, 0x110), vec![mapped("main", 1)]);
    assert_eq!(run(0x100, 0x100), vec![mapped("main", 0)]);
    assert_eq!(run(0x11f, 0x11f), vec![mapped("main", 1)]);
    // A block whose last instruction starts the next machine block.
    assert_eq!(run(0x104, 0x110), vec![mapped("main", 0), mapped("main", 1)]);
    assert_eq!(run(0x10f, 0x120), vec![mapped("main", 0), mapped("main", 1), mapped("main", 2)]);
    // The offset after the last machine block belongs to none.
    assert_eq!(run(0x130, 0x130), vec![TraceAction::new_unmappable_block()]);
    assert_eq!(run(0xff, 0xff), vec![TraceAction::new_unmappable_block()]);
    assert_eq!(run(0x12f, 0x130), vec![mapped("main", 2)]);
}

#[test]
fn closed_queries_reach_the_end_of_the_address_space() {
    let mut section = function_blocks(u64::MAX - 0x10, &[(0, 0x10, 0), (0x10, 0, 1)]);
    section.extend(function_blocks(0x40, &[(0, 0x10, 7)]));
    let map = BlockMap::new(&section).unwrap();
    let last = BlockMapEntry { lo: u64::MAX - 0x10, hi: u64::MAX, f_off: u64::MAX - 0x10, bb: 0 };
    let empty = BlockMapEntry { lo: u64::MAX, hi: u64::MAX, f_off: u64::MAX - 0x10, bb: 1 };
    let low = BlockMapEntry { lo: 0x40, hi: 0x50, f_off: 0x40, bb: 7 };
    assert_eq!(map.query_closed(u64::MAX - 1, u64::MAX - 1), vec![last]);
    assert_eq!(map.query_closed(u64::MAX - 1, u64::MAX), vec![last, empty]);
    assert_eq!(map.query_closed(0, u64::MAX), vec![low, last, empty]);
    assert_eq!(map.query_closed(u64::MAX, u64::MAX), vec![]);
    assert_eq!(map.query_closed(0x4f, 0x4f), vec![low]);
    assert_eq!(map.query_closed(0x50, 0x50), vec![]);
    assert_eq!(map.query_closed(0x3f, 0x40), vec![low]);
    // The range of a closed query holds its last offset, that of an open one does not.
    assert_eq!(map.query(0x3f, 0x40), vec![]);
}

#[test]
fn query_lists_overlapping_entries_in_ascending_order() {
    let mut section = function_blocks(0x300, &[(0x20, 0x10, 3), (0, 0x20, 2)]);
    section.extend(function_blocks(0x100, &[(0, 0x80, 0), (0x80, 0x80, 1)]));
    let map = BlockMap::new(&section).unwrap();
    assert_eq!(map.len(), 4);
    let all = map.query(0, u64::MAX);
    assert_eq!(
        all,
        vec![
            BlockMapEntry { lo: 0x100, hi: 0x180, f_off: 0x100, bb: 0 },
            BlockMapEntry { lo: 0x180, hi: 0x200, f_off: 0x100, bb: 1 },
            BlockMapEntry { lo: 0x300, hi: 0x320, f_off: 0x300, bb: 2 },
            BlockMapEntry { lo: 0x320, hi: 0x330, f_off: 0x300, bb: 3 },
        ]
    );
    // A range overlaps an entry if they share an offset: the end of a range is outside it.
    assert_eq!(map.query(0x180, 0x181).len(), 1);
    assert_eq!(map.query(0x17f, 0x181).len(), 2);
    assert_eq!(map.query(0x200, 0x300).len(), 0);
    assert_eq!(map.query(0x31f, 0x320), vec![BlockMapEntry { lo: 0x300, hi: 0x320, f_off: 0x300, bb: 2 }]);
}

#[test]
fn every_offset_of_a_function_has_one_block() {
    let section = function_blocks(0x40, &[(0, 5, 0), (5, 7, 1), (12, 4, 2)]);
    let map = BlockMap::new(&section).unwrap();
    for off in 0x40..0x50u64 {
        let found = map.query(off, off + 1);
        assert_eq!(found, map.query_closed(off, off));
        assert_eq!(found.len(), 1);
        assert_ne!(found[0].bb, NO_BB);
        assert!(found[0].lo <= off && off < found[0].hi);
    }
    assert!(map.query(0x50, 0x51).is_empty());
    assert!(map.query(0x3f, 0x40).is_empty());
}

#[test]
fn multi_byte_leb128_numbers() {
    let section = function_blocks(1, &[(0x3fff, 0x1f_ffff, 300), (u64::MAX - 1, 0, 0)]);
    // 0x3fff takes two bytes, 0x1f_ffff three, 300 two, u64::MAX - 1 ten.
    assert_eq!(section.len(), 8 + 1 + (2 + 3 + 1 + 2) + (10 + 1 + 1 + 1));
    let map = BlockMap::new(&section).unwrap();
    assert_eq!(
        map.query(0, u64::MAX),
        vec![BlockMapEntry { lo: 0x4000, hi: 0x20_3fff, f_off: 1, bb: 300 }]
    );
    // The second block is empty, so that no range has an offset in common with it.
    assert_eq!(map.len(), 2);
}

#[test]
fn block_map_errors() {
    assert_eq!(BlockMap::new(&[1, 2, 3]).err(), Some(BlockMapError::UnexpectedEnd));
    // The block count is missing.
    assert_eq!(BlockMap::new(&[0; 8]).err(), Some(BlockMapError::BadLeb128));
    // One block is announced, none follows.
    assert_eq!(BlockMap::new(&[0, 0, 0, 0, 0, 0, 0, 0, 1]).err(), Some(BlockMapError::BadLeb128));
    // A number of eleven bytes.
    let mut long = vec![0u8; 8];
    long.extend_from_slice(&[0x80; 10]);
    long.push(0);
    assert_eq!(BlockMap::new(&long).err(), Some(BlockMapError::BadLeb128));
    let section = function_blocks(u64::MAX, &[(1, 0, 0)]);
    assert_eq!(BlockMap::new(&section).err(), Some(BlockMapError::AddressOverflow));
    let section = function_blocks(u64::MAX - 1, &[(1, 1, 0)]);
    assert_eq!(BlockMap::new(&section).err(), Some(BlockMapError::AddressOverflow));
    assert_eq!(BlockMap::new(&[]).unwrap().len(), 0);
}

#[test]
fn unmapped_block_gives_one_unmappable_action() {
    let map = BlockMap::new(&function_blocks(0x100, &[(0, 0x10, 0)])).unwrap();
    let mut mapper = HWTMapper::new(names(&[(0x100, "main")]));
    let actions = mapper.map_block(&map, &Block { first_instr: 0x200, last_instr: 0x210 }).unwrap();
    assert_eq!(actions, vec![TraceAction::new_unmappable_block()]);
    assert!(mapper.faddrs().is_empty());
}

#[test]
fn map_block_errors() {
    let mut section = function_blocks(0x100, &[(0, 0x10, 0), (0x10, 0x10, NO_BB), (0x30, 0x10, 2)]);
    section.extend(function_blocks(0x200, &[(0, 0x10, 0)]));
    let map = BlockMap::new(&section).unwrap();
    let mut mapper = HWTMapper::new(names(&[(0x100, "main")]));
    let mut run =
        |first, last| mapper.map_block(&map, &Block { first_instr: first, last_instr: last });
    assert_eq!(run(0x10f, 0x100).err(), Some(MapError::BadBlock));
    assert_eq!(run(0x100, 0x118).err(), Some(MapError::NoBasicBlock));
    assert_eq!(run(0x100, 0x108).unwrap(), vec![mapped("main", 0)]);
    assert_eq!(run(0x200, 0x208).err(), Some(MapError::NoSymbol));
    let gap = BlockMap::new(&function_blocks(0x100, &[(0, 0x10, 0), (0x30, 0x10, 2)])).unwrap();
    let r = mapper.map_block(&gap, &Block { first_instr: 0x100, last_instr: 0x138 });
    assert_eq!(r.err(), Some(MapError::NotContiguous));
    // Only the functions of blocks that were mapped are noted.
    assert_eq!(mapper.into_faddrs(), vec![("main".to_string(), 0x100u64)]);
}

#[test]
fn map_trace_skips_the_head_trims_the_tail_and_drops_repetitions() {
    let mut section = function_blocks(0x100, &[(0, 0x10, 0), (0x10, 0x10, 1)]);
    section.extend(function_blocks(0x200, &[(0, 0x10, 0)]));
    let map = BlockMap::new(&section).unwrap();
    let mut mapper = HWTMapper::new(names(&[(0x100, "main")]));
    mapper.add_symbol(0x200, "helper".to_string());
    let b = |first, last| Block { first_instr: first, last_instr: last };
    let trace = vec![
        b(0x900, 0x910), // the control point's own code
        b(0x920, 0x930),
        b(0x100, 0x118), // main 0, main 1
        b(0x110, 0x118), // main 1 again
        b(0x200, 0x208), // helper 0
        b(0x200, 0x20c), // helper 0 again
        b(0x100, 0x104), // main 0
        b(0x900, 0x910), // the call that stops tracing
        b(0x100, 0x104),
    ];
    let actions = mapper.map_trace(&map, &trace).unwrap();
    assert_eq!(
        actions,
        vec![mapped("main", 0), mapped("main", 1), mapped("helper", 0), mapped("main", 0)]
    );
    for pair in actions.windows(2) {
        assert_ne!(pair[0], pair[1]);
    }
    // A function is noted for every machine block that was mapped, repeated or not.
    let noted: Vec<(&str, u64)> = mapper.faddrs().iter().map(|(n, a)| (n.as_str(), *a)).collect();
    assert_eq!(
        noted,
        vec![
            ("main", 0x100),
            ("main", 0x100),
            ("main", 0x100),
            ("helper", 0x200),
            ("helper", 0x200),
            ("main", 0x100)
        ]
    );
    assert!(mapper.map_trace(&map, &vec![b(0x900, 0x910)]).unwrap().is_empty());
    assert!(mapper.map_trace(&map, &vec![]).unwrap().is_empty());
    // A block at fault after the end of the mapping is never looked at.
    let tail = vec![b(0x100, 0x104), b(0x900, 0x910), b(5, 4)];
    assert_eq!(mapper.map_trace(&map, &tail).unwrap(), vec![mapped("main", 0)]);
    let head = vec![b(5, 4), b(0x100, 0x104)];
    assert_eq!(mapper.map_trace(&map, &head).err(), Some(MapError::BadBlock));
}

#[test]
fn map_step_takes_one_block_at_a_time() {
    let map = BlockMap::new(&function_blocks(0x100, &[(0, 0x10, 0), (0x10, 0x10, 1)])).unwrap();
    let mut mapper = HWTMapper::new(names(&[(0x100, "main")]));
    let b = |first, last| Block { first_instr: first, last_instr: last };
    let mut out = Vec::new();
    // Unmappable code before the first mapped block is passed over.
    assert_eq!(mapper.map_step(&map, &mut out, &b(0x900, 0x910)), Ok(false));
    assert!(out.is_empty());
    assert_eq!(mapper.map_step(&map, &mut out, &b(0x100, 0x104)), Ok(false));
    assert_eq!(mapper.map_step(&map, &mut out, &b(0x108, 0x110)), Ok(false));
    assert_eq!(out, vec![mapped("main", 0), mapped("main", 1)]);
    assert_eq!(mapper.map_step(&map, &mut out, &b(9, 8)), Err(MapError::BadBlock));
    assert_eq!(out, vec![mapped("main", 0), mapped("main", 1)]);
    // The first unmappable block after a mapped one ends the mapping.
    assert_eq!(mapper.map_step(&map, &mut out, &b(0x900, 0x910)), Ok(true));
    assert_eq!(out, vec![mapped("main", 0), mapped("main", 1)]);
    assert_eq!(mapper.faddrs().len(), 3);
}
