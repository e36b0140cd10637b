use ar_archive_writer::write_archive;
use ar_archive_writer::ArchiveKind;
use ar_archive_writer::NewArchiveMember;

fn member(name: &str, payload: &[u8]) -> NewArchiveMember {
    NewArchiveMember::new(payload.to_vec(), String::from(name))
}

#[test]
fn empty_coff_archive_layout() {
    // An empty COFF archive still carries a minimal symbol table and symbol
    // map, and nothing else.
    let out = write_archive(&Vec::new(), ArchiveKind::Coff, false, false).unwrap();
    assert_eq!(&out[0..8], b"!<arch>\n");
    // Symbol table member: empty name field, four-byte body of zeros.
    assert_eq!(&out[8..24], b"/               ");
    assert_eq!(&out[24..36], b"0           ");
    assert_eq!(&out[56..66], b"4         ");
    assert_eq!(&out[66..68], b"`\n");
    assert_eq!(&out[68..72], &[0, 0, 0, 0]);
    // Symbol map member: empty name field, member count and symbol count of
    // zero, no `//` member and no EC symbols member after it.
    assert_eq!(&out[72..88], b"/               ");
    assert_eq!(&out[120..130], b"8         ");
    assert_eq!(&out[132..140], &[0, 0, 0, 0, 0, 0, 0, 0]);
    assert_eq!(out.len(), 140);
}

#[test]
fn gnu_members_without_symbols_have_no_symbol_table() {
    // Neither member is an object file, so no symbol table member appears,
    // not even the three-NUL placeholder; the first member header follows
    // the magic directly.
    let members = vec![member("a.o", b"aa"), member("b.o", b"bb")];
    let out = write_archive(&members, ArchiveKind::Gnu, false, false).unwrap();
    assert_eq!(&out[0..8], b"!<arch>\n");
    assert_eq!(&out[8..12], b"a.o/");
    assert_eq!(&out[66..68], b"`\n");
    assert_eq!(&out[68..70], b"aa");
    assert_eq!(&out[70..74], b"b.o/");
    assert_eq!(out.len(), 8 + 62 + 62);
}

#[test]
fn solaris_placeholder_written_for_objects_without_symbols() {
    // An object member with no archive-visible symbols still gets an empty
    // symbol table of three NULs, so old tools see one.
    let mut m = member("a.o", b"aa");
    m.is_object = true;
    let out = write_archive(&vec![m], ArchiveKind::Gnu, false, false).unwrap();
    assert_eq!(&out[0..8], b"!<arch>\n");
    // Symbol table member named "": zero symbols, then the three NULs.
    assert_eq!(&out[8..24], b"/               ");
    // size = 4 (count word) + 3 (names) + 1 (pad) = 8
    assert_eq!(&out[56..66], b"8         ");
    assert_eq!(&out[68..72], &[0, 0, 0, 0]);
    assert_eq!(&out[72..76], &[0, 0, 0, 0]);
    // First member header follows the symbol table.
    assert_eq!(&out[76..80], b"a.o/");
}

#[test]
fn long_name_goes_to_string_table() {
    let members = vec![member("this_is_a_very_long_name.o", b"xy")];
    let out = write_archive(&members, ArchiveKind::Gnu, false, false).unwrap();
    assert_eq!(&out[0..8], b"!<arch>\n");
    // The `//` member holds the name once, slash-newline terminated.
    assert_eq!(&out[8..10], b"//");
    assert_eq!(&out[56..66], b"28        ");
    assert_eq!(&out[68..96], b"this_is_a_very_long_name.o/\n");
    // The member header points at offset zero of the string table.
    assert_eq!(&out[96..98], b"/0");
    assert_eq!(&out[96..112], b"/0              ");
}

#[test]
fn long_names_deduplicated_in_string_table() {
    // Two members of the same long name: the `//` member holds one copy and
    // both headers reference offset zero.
    let members = vec![
        member("this_is_a_very_long_name.o", b"xy"),
        member("this_is_a_very_long_name.o", b"zw"),
    ];
    let out = write_archive(&members, ArchiveKind::Gnu, false, false).unwrap();
    assert_eq!(&out[8..10], b"//");
    assert_eq!(&out[56..66], b"28        ");
    assert_eq!(&out[68..96], b"this_is_a_very_long_name.o/\n");
    let needle = b"this_is_a_very_long_name";
    let count = out
        .windows(needle.len())
        .filter(|w| w == needle)
        .count();
    assert_eq!(count, 1);
    assert_eq!(&out[96..98], b"/0");
    // Second header, after the first member's 60 + 2 bytes.
    assert_eq!(&out[158..160], b"/0");
}

#[test]
fn darwin_duplicate_names_get_ordinal_timestamps() {
    // Two members named f.o with input mtimes 1000 and 2000: the emitted
    // mtime fields are 0 and 1.
    let mut m1 = member("f.o", b"zz");
    m1.mtime = 1000;
    let mut m2 = member("f.o", b"zz");
    m2.mtime = 2000;
    let out = write_archive(&vec![m1, m2], ArchiveKind::Darwin, false, false).unwrap();
    assert_eq!(&out[0..8], b"!<arch>\n");
    // Darwin writes a symbol table even for an empty archive: a BSD header
    // named __.SYMDEF (padded by three NULs) and an eight-byte body.
    assert_eq!(&out[8..11], b"#1/");
    assert_eq!(&out[68..77], b"__.SYMDEF");
    // First member at 88; its mtime field sits 16 bytes into the header.
    assert_eq!(&out[88..91], b"#1/");
    assert_eq!(&out[104..116], b"0           ");
    // Second member at 160.
    assert_eq!(&out[160..163], b"#1/");
    assert_eq!(&out[176..188], b"1           ");
}

#[test]
fn darwin_unique_name_keeps_mtime() {
    let mut m1 = member("f.o", b"zz");
    m1.mtime = 1000;
    let mut m2 = member("g.o", b"zz");
    m2.mtime = 2000;
    let out = write_archive(&vec![m1, m2], ArchiveKind::Darwin, false, false).unwrap();
    assert_eq!(&out[104..116], b"1000        ");
    assert_eq!(&out[176..188], b"2000        ");
}

#[test]
fn coff_with_too_many_members_becomes_gnu() {
    // 0xFFFF members exceed the 16-bit symbol map indexes: the archive is
    // silently emitted as GNU, whose first bytes after the magic are the
    // first member header, not a symbol table header.
    let mut members = Vec::new();
    for _ in 0..0xffffu32 {
        members.push(member("m", b"xx"));
    }
    let out = write_archive(&members, ArchiveKind::Coff, false, false).unwrap();
    assert_eq!(&out[0..8], b"!<arch>\n");
    assert_eq!(&out[8..10], b"m/");
    assert_eq!(out.len(), 8 + 62 * 0xffff);
}

#[test]
fn empty_gnu_archive_is_magic_only() {
    // No members, no symbol table, no string table: the magic alone.
    let out = write_archive(&Vec::new(), ArchiveKind::Gnu, false, false).unwrap();
    assert_eq!(out, b"!<arch>\n");
}

#[test]
fn thin_archive_records_all_names() {
    let members = vec![member("dir/a.o", b"aa"), member("dir/b.o", b"bb")];
    let out = write_archive(&members, ArchiveKind::Gnu, true, false).unwrap();
    assert_eq!(&out[0..8], b"!<thin>\n");
    assert_eq!(&out[8..10], b"//");
    // Both full paths land in the string table, slash-newline terminated.
    assert_eq!(&out[68..86], b"dir/a.o/\ndir/b.o/\n");
    // Thin members carry no payload bytes.
    assert_eq!(&out[86..88], b"/0");
    assert_eq!(out.len(), 8 + 60 + 18 + 60 + 60);
}

#[test]
fn bsd_member_name_is_inline() {
    let members = vec![member("hello.o", b"abcd")];
    let out = write_archive(&members, ArchiveKind::Bsd, false, false).unwrap();
    assert_eq!(&out[0..8], b"!<arch>\n");
    // No symbol table for a BSD archive without objects: the member starts
    // at offset 8 with an inline #1/<len> name.
    assert_eq!(&out[8..11], b"#1/");
    // 8 + 60 + 7 = 75, padded to 80: the name carries five NULs.
    assert_eq!(&out[11..14], b"12 ");
    assert_eq!(&out[68..75], b"hello.o");
    assert_eq!(&out[75..80], &[0, 0, 0, 0, 0]);
    assert_eq!(&out[80..84], b"abcd");
}

#[test]
fn aix_archive_fixed_header() {
    let members = vec![member("a.o", b"abcd")];
    let out = write_archive(&members, ArchiveKind::AixBig, false, false).unwrap();
    assert_eq!(&out[0..8], b"<bigaf>\n");
    // First member offset: the fixed header is 128 bytes and the alignment
    // pad of the first member is zero here.
    assert_eq!(&out[68..71], b"128");
    // The member header begins at 128 with its 20-byte decimal size field.
    assert_eq!(&out[128..129], b"4");
}

#[test]
fn gnu_two_objects_round_trip_payloads() {
    // Two object members with overlapping symbols: the emitted archive holds
    // each payload unchanged after its header, and the symbol table lists
    // every symbol of both members.
    let mut m1 = member("file1.o", b"payload-one!");
    m1.is_object = true;
    m1.symbols = vec![b"func1".to_vec(), b"func_overlapping".to_vec()];
    let mut m2 = member("file2.o", b"payload-two!");
    m2.is_object = true;
    m2.symbols = vec![b"func2".to_vec(), b"func_overlapping".to_vec()];
    let out = write_archive(&vec![m1, m2], ArchiveKind::Gnu, false, false).unwrap();
    // Both payloads appear intact, in input order.
    let p1 = out.windows(12).position(|w| w == b"payload-one!").unwrap();
    let p2 = out.windows(12).position(|w| w == b"payload-two!").unwrap();
    assert!(p1 < p2);
    // GNU records duplicates too: four offsets in the symbol table.
    assert_eq!(&out[68..72], &[0, 0, 0, 4]);
    let names = b"func1\0func_overlapping\0func2\0func_overlapping\0";
    let start = 72 + 16;
    assert_eq!(&out[start..start + names.len()], names);
}

#[test]
fn darwin_round_trip_payload_after_inline_name() {
    // The payload sits directly after the inline name and its pad, unchanged.
    let m = member("x.o", b"ABCDEFGH");
    let out = write_archive(&vec![m], ArchiveKind::Darwin, false, false).unwrap();
    let pos = out.windows(8).position(|w| w == b"ABCDEFGH").unwrap();
    // Member header at 88 (after the __.SYMDEF member), 60 bytes of fields,
    // the 3-byte name and one NUL of padding.
    assert_eq!(pos, 88 + 60 + 4);
    assert_eq!(out.len(), pos + 8);
}

#[test]
fn gnu_symbols_fill_symbol_table() {
    let mut m = member("a.o", b"abcd");
    m.is_object = true;
    m.symbols = vec![b"alpha".to_vec(), b"beta".to_vec()];
    let out = write_archive(&vec![m], ArchiveKind::Gnu, false, false).unwrap();
    assert_eq!(&out[0..8], b"!<arch>\n");
    // Symbol table: two big-endian words count and offsets, then the two
    // NUL-terminated names.
    assert_eq!(&out[68..72], &[0, 0, 0, 2]);
    // Both symbols resolve to the lone member, whose header starts after
    // the 8-byte magic, the 60-byte symbol table header and its body.
    let body = 4 + 8 + 11 + 1; // count, offsets, names, pad
    let member_off = (8 + 60 + body) as u32;
    assert_eq!(&out[72..76], &member_off.to_be_bytes());
    assert_eq!(&out[76..80], &member_off.to_be_bytes());
    assert_eq!(&out[80..91], b"alpha\0beta\0");
}
