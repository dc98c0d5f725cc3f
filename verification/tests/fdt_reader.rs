use mercuros_mercurius::fdt::{
    next_aligned, read_word, Fdt, FdtError, Header, COMPATIBLE_VERSION, FDT_BEGIN_NODE, FDT_END,
    FDT_END_NODE, FDT_NOP, FDT_PROP, HEADER_SIZE, MAGIC,
};

fn word(value: u32) -> [u8; 4] {
    value.to_be_bytes()
}

fn header(fields: [u32; 10]) -> Vec<u8> {
    let mut bytes = Vec::new();
    for field in fields {
        bytes.extend_from_slice(&word(field));
    }
    bytes
}

/// A blob with the given structure block and a strings block of four bytes.
fn blob(structure: &[u8]) -> Vec<u8> {
    let offset = HEADER_SIZE as u32;
    let size = structure.len() as u32;
    let mut bytes = header([
        MAGIC,
        offset + size + 4,
        offset,
        offset + size,
        offset,
        17,
        16,
        0,
        4,
        size,
    ]);
    bytes.extend_from_slice(structure);
    bytes.extend_from_slice(b"abc\0");
    bytes
}

fn begin_node(name: &[u8]) -> Vec<u8> {
    let mut bytes = word(FDT_BEGIN_NODE).to_vec();
    bytes.extend_from_slice(name);
    bytes.push(0);
    while bytes.len() % 4 != 0 {
        bytes.push(0);
    }
    bytes
}

fn property(value: &[u8]) -> Vec<u8> {
    let mut bytes = word(FDT_PROP).to_vec();
    bytes.extend_from_slice(&word(value.len() as u32));
    bytes.extend_from_slice(&word(0));
    bytes.extend_from_slice(value);
    while bytes.len() % 4 != 0 {
        bytes.push(0);
    }
    bytes
}

fn sample_structure() -> Vec<u8> {
    let mut structure = Vec::new();
    structure.extend(begin_node(b""));
    structure.extend(property(b"hello"));
    structure.extend(begin_node(b"cpus"));
    structure.extend(word(FDT_NOP));
    structure.extend(begin_node(b"cpu@0"));
    structure.extend(property(b""));
    structure.extend(word(FDT_END_NODE));
    structure.extend(word(FDT_END_NODE));
    structure.extend(begin_node(b"memory@80000000"));
    structure.extend(word(FDT_END_NODE));
    structure.extend(word(FDT_END_NODE));
    structure.extend(word(FDT_END));
    structure
}

fn names(bytes: &[u8]) -> Vec<Vec<u8>> {
    let fdt = Fdt::from_buffer(bytes).ok().unwrap();
    let mut walk = fdt.nodes();
    let mut found = Vec::new();
    while let Some(item) = walk.next() {
        if let Some(name) = item {
            found.push(name.to_vec());
        }
    }
    found
}

fn items(structure: &[u8]) -> Vec<Option<Vec<u8>>> {
    let bytes = blob(structure);
    let fdt = Fdt::from_buffer(&bytes).ok().unwrap();
    let mut walk = fdt.nodes();
    let mut found = Vec::new();
    while let Some(item) = walk.next() {
        found.push(item.map(|name| name.to_vec()));
    }
    assert!(walk.next().is_none());
    found
}

fn error_of(bytes: &[u8]) -> FdtError {
    match Fdt::from_buffer(bytes) {
        Ok(_) => panic!("the blob was accepted"),
        Err(error) => error,
    }
}

#[test]
fn read_word_is_big_endian() {
    assert_eq!(read_word(&[0xd0, 0x0d, 0xfe, 0xed]), 0xd00dfeed);
    assert_eq!(read_word(&[0, 0, 0, 1]), 1);
    assert_eq!(read_word(&[1, 0, 0, 0]), 0x0100_0000);
    assert_eq!(read_word(&[0xff, 0xff, 0xff, 0xff]), u32::MAX);
    assert_eq!(read_word(&[0x12, 0x34, 0x56, 0x78]), 0x1234_5678);
}

#[test]
fn next_aligned_rounds_up_to_four() {
    assert_eq!(next_aligned(0), 0);
    assert_eq!(next_aligned(1), 4);
    assert_eq!(next_aligned(2), 4);
    assert_eq!(next_aligned(3), 4);
    assert_eq!(next_aligned(4), 4);
    assert_eq!(next_aligned(5), 8);
    assert_eq!(next_aligned(41), 44);
    assert_eq!(next_aligned(usize::MAX - 3), usize::MAX - 3);
}

#[test]
fn header_is_decoded_field_by_field() {
    let bytes = header([MAGIC, 2, 3, 4, 5, 17, 16, 8, 9, 10]);
    let decoded = Header::read(&bytes).unwrap();
    assert_eq!(
        decoded,
        Header {
            magic: 0xd00dfeed,
            totalsize: 2,
            off_dt_struct: 3,
            off_dt_strings: 4,
            off_mem_rsvmap: 5,
            version: 17,
            last_comp_version: 16,
            boot_cpuid_phys: 8,
            size_dt_strings: 9,
            size_dt_struct: 10,
        }
    );
    assert!(decoded.is_valid());
    assert!(decoded.is_compatible());
}

#[test]
fn header_needs_forty_bytes() {
    let bytes = header([MAGIC, 2, 3, 4, 5, 17, 16, 8, 9, 10]);
    assert_eq!(Header::read(&bytes[..39]), None);
    assert_eq!(Header::read(&[]), None);
    assert!(Header::read(&bytes[..40]).is_some());
}

#[test]
fn version_window_is_checked_on_both_sides() {
    let with = |version: u32, last: u32| {
        Header::read(&header([MAGIC, 0, 0, 0, 0, version, last, 0, 0, 0])).unwrap()
    };
    assert!(with(17, 17).is_compatible());
    assert!(with(17, 16).is_compatible());
    assert!(with(18, 2).is_compatible());
    assert!(!with(16, 16).is_compatible());
    assert!(!with(17, 18).is_compatible());
    assert!(!with(18, 18).is_compatible());
    assert_eq!(COMPATIBLE_VERSION, 17);
}

#[test]
fn read_length_gives_the_total_size() {
    let bytes = header([MAGIC, 0x1234, 0, 0, 0, 0, 0, 0, 0, 0]);
    assert_eq!(Fdt::read_length(&bytes), Ok(0x1234));
}

#[test]
fn read_length_checks_the_magic_word() {
    let bytes = header([0xfeedd00d, 0x1234, 0, 0, 0, 17, 16, 0, 0, 0]);
    assert_eq!(Fdt::read_length(&bytes), Err(FdtError::BadMagic(0xfeedd00d)));
}

#[test]
fn read_length_needs_the_header() {
    let bytes = header([MAGIC, 0x1234, 0, 0, 0, 17, 16, 0, 0, 0]);
    assert_eq!(Fdt::read_length(&bytes[..8]), Err(FdtError::BufferOverflow));
}

#[test]
fn a_tree_hands_out_its_node_names_in_order() {
    let bytes = blob(&sample_structure());
    assert_eq!(
        names(&bytes),
        vec![
            b"".to_vec(),
            b"cpus".to_vec(),
            b"cpu@0".to_vec(),
            b"memory@80000000".to_vec(),
        ]
    );
}

#[test]
fn every_token_is_one_item() {
    assert_eq!(
        items(&sample_structure()),
        vec![
            Some(b"".to_vec()),
            None,
            Some(b"cpus".to_vec()),
            None,
            Some(b"cpu@0".to_vec()),
            None,
            None,
            None,
            Some(b"memory@80000000".to_vec()),
            None,
            None,
        ]
    );
}

#[test]
fn an_empty_structure_block_has_no_items() {
    assert_eq!(items(&[]), Vec::<Option<Vec<u8>>>::new());
}

#[test]
fn the_walk_stops_at_a_word_that_is_no_token() {
    let mut structure = begin_node(b"a");
    structure.extend(word(7));
    structure.extend(begin_node(b"b"));
    assert_eq!(items(&structure), vec![Some(b"a".to_vec())]);
}

#[test]
fn the_walk_stops_at_the_end_token() {
    let mut structure = begin_node(b"a");
    structure.extend(word(FDT_END));
    structure.extend(begin_node(b"b"));
    assert_eq!(items(&structure), vec![Some(b"a".to_vec())]);
}

#[test]
fn the_walk_stops_at_a_name_that_is_not_closed() {
    let mut structure = word(FDT_NOP).to_vec();
    structure.extend(word(FDT_BEGIN_NODE));
    structure.extend_from_slice(b"open");
    assert_eq!(items(&structure), vec![None]);
}

#[test]
fn the_walk_stops_at_a_node_token_without_a_name() {
    let mut structure = word(FDT_NOP).to_vec();
    structure.extend(word(FDT_BEGIN_NODE));
    assert_eq!(items(&structure), vec![None]);
}

#[test]
fn the_walk_stops_at_a_token_that_is_cut_short() {
    let mut structure = word(FDT_NOP).to_vec();
    structure.extend_from_slice(&[0, 0, 0]);
    assert_eq!(items(&structure), vec![None]);
}

#[test]
fn the_walk_stops_at_a_property_that_is_cut_short() {
    let mut structure = word(FDT_NOP).to_vec();
    structure.extend(word(FDT_PROP));
    structure.extend(word(4));
    assert_eq!(items(&structure), vec![None]);
}

#[test]
fn a_property_is_skipped_with_its_padding() {
    for length in 0..9usize {
        let mut structure = property(&vec![0xAA; length]);
        structure.extend(begin_node(b"after"));
        assert_eq!(items(&structure), vec![None, Some(b"after".to_vec())]);
    }
}

#[test]
fn a_property_may_run_past_the_block() {
    let mut structure = word(FDT_PROP).to_vec();
    structure.extend(word(1000));
    structure.extend(word(0));
    structure.extend(begin_node(b"hidden"));
    assert_eq!(items(&structure), vec![None]);
}

#[test]
fn a_name_is_followed_by_padding() {
    for length in 0..9usize {
        let name = vec![b'x'; length];
        let mut structure = begin_node(&name);
        structure.extend(begin_node(b"next"));
        assert_eq!(items(&structure), vec![Some(name), Some(b"next".to_vec())]);
    }
}

#[test]
fn a_short_buffer_overflows() {
    let bytes = blob(&sample_structure());
    assert_eq!(error_of(&bytes[..39]), FdtError::BufferOverflow);
    assert_eq!(error_of(&[]), FdtError::BufferOverflow);
}

#[test]
fn a_wrong_magic_word_is_reported_with_the_word() {
    let mut bytes = blob(&sample_structure());
    bytes[3] = 0xee;
    assert_eq!(error_of(&bytes), FdtError::BadMagic(0xd00dfeee));
    bytes[0] = 0;
    assert_eq!(error_of(&bytes), FdtError::BadMagic(0x000dfeee));
}

#[test]
fn the_magic_word_is_checked_before_the_version() {
    let bytes = header([1, 40, 40, 40, 40, 1, 99, 0, 0, 0]);
    assert_eq!(error_of(&bytes), FdtError::BadMagic(1));
}

#[test]
fn an_old_version_is_incompatible() {
    let bytes = header([MAGIC, 40, 40, 40, 40, 16, 16, 0, 0, 0]);
    assert_eq!(error_of(&bytes), FdtError::IncompatibleVersion);
}

#[test]
fn a_version_that_dropped_compatibility_is_incompatible() {
    let bytes = header([MAGIC, 40, 40, 40, 40, 18, 18, 0, 0, 0]);
    assert_eq!(error_of(&bytes), FdtError::IncompatibleVersion);
}

#[test]
fn the_version_is_checked_before_the_blocks() {
    let bytes = header([MAGIC, 40, 4000, 4000, 4000, 1, 1, 0, 9, 9]);
    assert_eq!(error_of(&bytes), FdtError::IncompatibleVersion);
}

#[test]
fn a_strings_block_past_the_buffer_overflows() {
    let bytes = header([MAGIC, 40, 40, 40, 40, 17, 16, 0, 1, 0]);
    assert_eq!(error_of(&bytes), FdtError::BufferOverflow);
}

#[test]
fn a_structure_block_past_the_buffer_overflows() {
    let bytes = header([MAGIC, 40, 36, 40, 40, 17, 16, 0, 0, 5]);
    assert_eq!(error_of(&bytes), FdtError::BufferOverflow);
}

#[test]
fn a_reservation_block_past_the_buffer_overflows() {
    let bytes = header([MAGIC, 40, 40, 40, 41, 17, 16, 0, 0, 0]);
    assert_eq!(error_of(&bytes), FdtError::BufferOverflow);
}

#[test]
fn a_block_whose_end_cannot_be_told_is_invalid() {
    let structure = header([MAGIC, 40, u32::MAX, 40, 40, 17, 16, 0, 0, 2]);
    let strings = header([MAGIC, 40, 40, u32::MAX, 40, 17, 16, 0, 1, 0]);
    let expected = if usize::BITS == 32 {
        FdtError::InvalidFormat
    } else {
        FdtError::BufferOverflow
    };
    assert_eq!(error_of(&structure), expected);
    assert_eq!(error_of(&strings), expected);
}

#[test]
fn blocks_may_end_with_the_buffer() {
    let bytes = header([MAGIC, 40, 40, 40, 40, 17, 16, 0, 0, 0]);
    assert_eq!(names(&bytes), Vec::<Vec<u8>>::new());
    let inside = header([MAGIC, 40, 0, 36, 0, 17, 17, 0, 4, 40]);
    assert!(Fdt::from_buffer(&inside).is_ok());
}

#[test]
fn the_structure_block_may_lie_anywhere_in_the_buffer() {
    let structure = begin_node(b"soc");
    let mut bytes = header([MAGIC, 100, 60, 44, 40, 17, 16, 0, 4, structure.len() as u32]);
    bytes.extend_from_slice(&[0xEE; 4]);
    bytes.extend_from_slice(b"abc\0");
    bytes.extend_from_slice(&[0xEE; 12]);
    bytes.extend_from_slice(&structure);
    bytes.extend_from_slice(&begin_node(b"outside"));
    assert_eq!(names(&bytes), vec![b"soc".to_vec()]);
}

#[test]
fn two_walks_do_not_disturb_each_other() {
    let bytes = blob(&sample_structure());
    let fdt = Fdt::from_buffer(&bytes).ok().unwrap();
    let mut first = fdt.nodes();
    let mut second = fdt.nodes();
    assert_eq!(first.next(), Some(Some(&b""[..])));
    assert_eq!(first.next(), Some(None));
    assert_eq!(first.next(), Some(Some(&b"cpus"[..])));
    assert_eq!(second.next(), Some(Some(&b""[..])));
}
