use rainfuck::{Cmd, Error, Program};
use std::io::{self, Read};

/// A reader that fails on every read.
struct Broken;

impl Read for Broken {
    fn read(&mut self, _buf: &mut [u8]) -> io::Result<usize> {
        Err(io::Error::new(io::ErrorKind::Other, "broken"))
    }
}

#[test]
fn from_byte_knows_the_eight_instructions() {
    assert_eq!(Cmd::from_byte(b'>'), Some(Cmd::Right));
    assert_eq!(Cmd::from_byte(b'<'), Some(Cmd::Left));
    assert_eq!(Cmd::from_byte(b'+'), Some(Cmd::Inc));
    assert_eq!(Cmd::from_byte(b'-'), Some(Cmd::Dec));
    assert_eq!(Cmd::from_byte(b'.'), Some(Cmd::Out));
    assert_eq!(Cmd::from_byte(b','), Some(Cmd::In));
    assert_eq!(Cmd::from_byte(b'['), Some(Cmd::Start));
    assert_eq!(Cmd::from_byte(b']'), Some(Cmd::End));
}

#[test]
fn from_byte_drops_every_other_byte() {
    let mut kept: usize = 0;
    for b in 0..=255u8 {
        if Cmd::from_byte(b).is_some() {
            assert!(b"><+-.,[]".contains(&b));
            kept += 1;
        }
    }
    assert_eq!(kept, 8);
}

#[test]
fn parse_keeps_instructions_in_order() {
    let prog = Program::parse(b"a>b<c+d-e.f,g[h]i").unwrap();
    assert_eq!(
        prog.commands(),
        &vec![
            Cmd::Right,
            Cmd::Left,
            Cmd::Inc,
            Cmd::Dec,
            Cmd::Out,
            Cmd::In,
            Cmd::Start,
            Cmd::End
        ]
    );
}

#[test]
fn parse_starts_with_one_chunk_of_zero_cells() {
    let prog = Program::parse(b"+").unwrap();
    assert_eq!(prog.tape().len(), 1024);
    assert!(prog.tape().iter().all(|c| *c == 0));
    assert_eq!(prog.pc(), 0);
    assert_eq!(prog.ptr(), 0);
    assert_eq!(prog.cell(), 0);
}

#[test]
fn comments_only_parse_to_empty_program() {
    let mut prog = Program::parse(b"Hello world? (no instruction here)\n").unwrap();
    assert!(prog.commands().is_empty());
    let mut cin: &[u8] = b"xyz";
    let mut cout: Vec<u8> = Vec::new();
    assert!(prog.can_step());
    assert!(matches!(prog.step(&mut cin, &mut cout), Ok(false)));
    assert_eq!(prog.pc(), 0);
    assert_eq!(prog.ptr(), 0);
    assert_eq!(prog.tape(), &vec![0u8; 1024]);
    assert!(cout.is_empty());
    assert_eq!(cin.len(), 3);
}

#[test]
fn empty_source_parses_to_empty_program() {
    let prog = Program::parse(b"").unwrap();
    assert!(prog.commands().is_empty());
    assert_eq!(prog.jump(0), None);
}

#[test]
fn lone_close_is_unmatched_close() {
    assert!(matches!(Program::parse(b"]"), Err(Error::UnmatchedClose)));
}

#[test]
fn lone_open_is_unmatched_open() {
    assert!(matches!(Program::parse(b"["), Err(Error::UnmatchedOpen)));
}

#[test]
fn close_after_balanced_prefix_is_unmatched_close() {
    assert!(matches!(Program::parse(b"+[-]]"), Err(Error::UnmatchedClose)));
    assert!(matches!(Program::parse(b"[]]["), Err(Error::UnmatchedClose)));
    assert!(matches!(Program::parse(b"]["), Err(Error::UnmatchedClose)));
}

#[test]
fn open_never_closed_is_unmatched_open() {
    assert!(matches!(Program::parse(b"[[]"), Err(Error::UnmatchedOpen)));
    assert!(matches!(Program::parse(b"[]["), Err(Error::UnmatchedOpen)));
    assert!(matches!(Program::parse(b"[[[+"), Err(Error::UnmatchedOpen)));
}

#[test]
fn unmatched_close_is_reported_before_unmatched_open() {
    assert!(matches!(Program::parse(b"[]]["), Err(Error::UnmatchedClose)));
    assert!(matches!(Program::parse(b"[ ] ] [ ["), Err(Error::UnmatchedClose)));
}

#[test]
fn jump_table_is_symmetric() {
    // positions:               0123456789
    let prog = Program::parse(b"[+[-]>[]]+").unwrap();
    assert_eq!(prog.jump(0), Some(8));
    assert_eq!(prog.jump(8), Some(0));
    assert_eq!(prog.jump(2), Some(4));
    assert_eq!(prog.jump(4), Some(2));
    assert_eq!(prog.jump(6), Some(7));
    assert_eq!(prog.jump(7), Some(6));
    for at in [1usize, 3, 5, 9, 10, 1000] {
        assert_eq!(prog.jump(at), None);
    }
}

#[test]
fn jump_positions_count_instructions_not_bytes() {
    let prog = Program::parse(b"  [ x ]  ").unwrap();
    assert_eq!(prog.commands().len(), 2);
    assert_eq!(prog.jump(0), Some(1));
    assert_eq!(prog.jump(1), Some(0));
    assert_eq!(prog.jump(2), None);
}

#[test]
fn load_parses_what_the_reader_holds() {
    let source: &[u8] = b"+ [ - ] .";
    let prog = Program::load(source).unwrap();
    assert_eq!(
        prog.commands(),
        &vec![Cmd::Inc, Cmd::Start, Cmd::Dec, Cmd::End, Cmd::Out]
    );
    assert_eq!(prog.jump(1), Some(3));
    assert_eq!(prog.tape().len(), 1024);
}

#[test]
fn load_reports_bracket_errors() {
    let close: &[u8] = b"]";
    assert!(matches!(Program::load(close), Err(Error::UnmatchedClose)));
    let open: &[u8] = b"[";
    assert!(matches!(Program::load(open), Err(Error::UnmatchedOpen)));
}

#[test]
fn load_hands_on_a_read_fault() {
    match Program::load(Broken) {
        Err(Error::IoFault(e)) => assert_eq!(e.kind(), io::ErrorKind::Other),
        _ => panic!("expected a fault"),
    }
}
