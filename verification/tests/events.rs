use ci_tracer::common::{
    ACCESS_CREATE, ACCESS_DELETE, ACCESS_READ, ACCESS_TRUNCATE, ACCESS_WRITE, COMM_LEN, EVENT_FILE_ACCESS,
    EVENT_PROCESS_EXEC, EVENT_PROCESS_EXIT, PATH_LEN,
};
use ci_tracer::events::{cstr, decode, decode_in, Access, ByteOrder, Event};
use ci_tracer::kernel::{classify_open, exec_record, exit_record, exit_status, file_header, split_pid_tgid};

fn comm(name: &str) -> [u8; COMM_LEN] {
    let mut c = [0u8; COMM_LEN];
    c[..name.len()].copy_from_slice(name.as_bytes());
    c
}

fn words(ws: &[u32]) -> Vec<u8> {
    ws.iter().flat_map(|w| w.to_ne_bytes()).collect()
}

#[test]
fn exec_records_are_decoded() {
    let mut data = words(&[EVENT_PROCESS_EXEC, 70_000, 1]);
    data.extend_from_slice(&comm("npm run build"));
    match decode(&data) {
        Some(Event::Exec(e)) => assert_eq!((e.pid, e.ppid, e.comm.as_str()), (70_000, 1, "npm run build")),
        other => panic!("{other:?}"),
    }
    assert!(decode(&data[..27]).is_none());
    data.push(9);
    assert!(matches!(decode(&data), Some(Event::Exec(_))));
}

#[test]
fn exit_codes_are_known_only_when_observed() {
    for (code, observed, expected) in [(3i32, 1u32, Some(3)), (-1, 1, Some(-1)), (0, 1, Some(0)), (7, 0, None), (5, 2, Some(5))] {
        let mut data = words(&[EVENT_PROCESS_EXIT, 9, code as u32, observed]);
        data.extend_from_slice(&comm("sh"));
        match decode(&data) {
            Some(Event::Exit(e)) => assert_eq!((e.pid, e.exit_code, e.comm.as_str()), (9, expected, "sh")),
            other => panic!("{other:?}"),
        }
    }
}

#[test]
fn file_records_are_decoded() {
    let raw = [
        (ACCESS_READ, Access::Read),
        (ACCESS_WRITE, Access::Write),
        (ACCESS_CREATE, Access::Create),
        (ACCESS_DELETE, Access::Delete),
        (ACCESS_TRUNCATE, Access::Truncate),
    ];
    for (tag, access) in raw {
        let mut data = words(&[EVENT_FILE_ACCESS, 4, tag]);
        data.extend_from_slice(&comm("cc1"));
        let mut path = [0u8; PATH_LEN];
        path[..4].copy_from_slice(b"/a/b");
        data.extend_from_slice(&path);
        match decode(&data) {
            Some(Event::File(e)) => assert_eq!((e.pid, e.access, e.comm.as_str(), e.path.as_str()), (4, access, "cc1", "/a/b")),
            other => panic!("{other:?}"),
        }
    }
}

#[test]
fn malformed_records_hold_no_event() {
    assert!(decode(&[]).is_none());
    assert!(decode(&[1, 0, 0]).is_none());
    assert!(decode(&words(&[0, 1, 2])).is_none());
    let mut data = words(&[EVENT_FILE_ACCESS, 4, 5]);
    data.extend_from_slice(&[0u8; COMM_LEN + PATH_LEN]);
    assert!(decode(&data).is_none());
    let mut empty = words(&[EVENT_FILE_ACCESS, 4, ACCESS_READ]);
    empty.extend_from_slice(&[0u8; COMM_LEN + PATH_LEN]);
    assert!(decode(&empty[..empty.len() - 1]).is_none());
    assert!(matches!(decode(&empty), Some(Event::File(e)) if e.path.is_empty()));
}

#[test]
fn texts_end_at_the_first_nul_and_are_read_loosely() {
    assert_eq!(cstr(b"abc\0def"), "abc");
    assert_eq!(cstr(b"abc"), "abc");
    assert_eq!(cstr(b"\0abc"), "");
    assert_eq!(cstr("\u{e9}".as_bytes()), "\u{e9}");
    assert_eq!(cstr(&[0x61, 0xff, 0x62]), "a\u{fffd}b");
}

#[test]
fn open_flags_are_classified() {
    assert_eq!(classify_open(0), ACCESS_READ);
    assert_eq!(classify_open(1), ACCESS_WRITE);
    assert_eq!(classify_open(2), ACCESS_WRITE);
    assert_eq!(classify_open(0o100), ACCESS_CREATE);
    assert_eq!(classify_open(0o101), ACCESS_CREATE);
    assert_eq!(classify_open(0o2000), ACCESS_READ);
}

#[test]
fn kernel_numbers_are_taken_apart() {
    assert_eq!(split_pid_tgid(0x0000_0007_0000_0009), (9, 7));
    assert_eq!(exit_status(0x1_02), 2);
    assert_eq!(exit_status(255), 255);
}

#[test]
fn the_idle_process_writes_no_record() {
    assert!(exec_record(0, Some(1), comm("x")).is_none());
    assert!(exit_record(0, Some(1), None).is_none());
    assert!(file_header(0, ACCESS_READ, comm("x")).is_none());
}

#[test]
fn records_decode_to_what_the_kernel_side_wrote() {
    let e = exit_record(5, None, None).unwrap();
    assert_eq!((e.exit_code, e.code_observed, e.comm), (0, 0, [0; COMM_LEN]));
    let mut data = words(&[e.event_type, e.pid, e.exit_code as u32, e.code_observed]);
    data.extend_from_slice(&e.comm);
    assert!(matches!(decode(&data), Some(Event::Exit(x)) if x.pid == 5 && x.exit_code.is_none() && x.comm.is_empty()));
    let e = exec_record(6, None, comm("sh")).unwrap();
    let mut data = words(&[e.event_type, e.pid, e.ppid]);
    data.extend_from_slice(&e.comm);
    assert!(matches!(decode(&data), Some(Event::Exec(x)) if x.pid == 6 && x.ppid == 0 && x.comm == "sh"));
    let mut path = [b'p'; PATH_LEN];
    path[0] = b'/';
    let h = file_header(7, ACCESS_DELETE, comm("rm")).unwrap();
    let mut data = words(&[h.event_type, h.pid, h.access]);
    data.extend_from_slice(&h.comm);
    data.extend_from_slice(&path);
    assert!(matches!(decode(&data), Some(Event::File(x)) if x.access == Access::Delete && x.path.len() == PATH_LEN));
}

#[test]
fn words_are_read_in_the_order_of_the_host() {
    let name = comm("sh");
    let mut little: Vec<u8> = vec![1, 0, 0, 0, 0x70, 0x11, 1, 0, 2, 0, 0, 0];
    little.extend_from_slice(&name);
    let mut big: Vec<u8> = vec![0, 0, 0, 1, 0, 1, 0x11, 0x70, 0, 0, 0, 2];
    big.extend_from_slice(&name);
    for (data, order, other) in [(&little, ByteOrder::Little, ByteOrder::Big), (&big, ByteOrder::Big, ByteOrder::Little)] {
        match decode_in(data, order) {
            Some(Event::Exec(e)) => assert_eq!((e.pid, e.ppid, e.comm.as_str()), (70_000, 2, "sh")),
            e => panic!("{e:?}"),
        }
        assert!(decode_in(data, other).is_none());
    }
    let native = ByteOrder::native();
    assert_eq!(native == ByteOrder::Little, 1u32.to_ne_bytes() == 1u32.to_le_bytes());
    assert_eq!(decode(&little).is_some(), native == ByteOrder::Little);
    assert_eq!(decode(&big).is_some(), native == ByteOrder::Big);
}
