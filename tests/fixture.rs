use rusty_reading::cli::{output_dir_path, resolve_output_dir};
use rusty_reading::fixture::{
    fixture_chunk, fixture_write_plan, within_fixture_limit, WritePlan, FIXTURE_CHUNK_SIZE,
    FIXTURE_FILL_BYTE,
};
use rusty_reading::reader::ReadTrace;
use rusty_reading::units::{ByteUnit1024, Bytes};
use rusty_reading::{fixture_file_name, fixture_path, is_help_flag};

#[test]
fn fixture_names() {
    assert_eq!(fixture_file_name(&Bytes::from_unit(5, ByteUnit1024::Gibibytes)), "5gib.bin");
    assert_eq!(fixture_file_name(&Bytes::from_unit(500, ByteUnit1024::Mebibytes)), "500mib.bin");
    assert_eq!(fixture_file_name(&Bytes::from_bytes(1024)), "1kib.bin");
    assert_eq!(fixture_file_name(&Bytes::from_bytes(10)), "10b.bin");
}

#[test]
fn fixture_paths_join_directory() {
    let size = Bytes::from_bytes(1024);
    assert_eq!(fixture_path("fixtures", &size), "fixtures/1kib.bin");
    assert_eq!(fixture_path("fixtures/", &size), "fixtures/1kib.bin");
    assert_eq!(fixture_path("", &size), "1kib.bin");
}

#[test]
fn fixture_limit_is_five_gib() {
    assert!(within_fixture_limit(&Bytes::from_unit(5, ByteUnit1024::Gibibytes)));
    assert!(!within_fixture_limit(&Bytes::from_bytes(5 * 1024 * 1024 * 1024 + 1)));
}

#[test]
fn write_plan_is_exact() {
    assert_eq!(FIXTURE_CHUNK_SIZE, 256000);
    let plan = fixture_write_plan(&Bytes::from_bytes(FIXTURE_CHUNK_SIZE + 1), false);
    assert_eq!(plan, Some(WritePlan { full_chunks: 1, tail: 1 }));
    let plan = fixture_write_plan(&Bytes::from_bytes(2 * FIXTURE_CHUNK_SIZE), false);
    assert_eq!(plan, Some(WritePlan { full_chunks: 2, tail: 0 }));
    let plan = fixture_write_plan(&Bytes::from_bytes(FIXTURE_CHUNK_SIZE - 1), false);
    assert_eq!(plan, Some(WritePlan { full_chunks: 0, tail: FIXTURE_CHUNK_SIZE - 1 }));
    let plan = fixture_write_plan(&Bytes::from_unit(5, ByteUnit1024::Gibibytes), false).unwrap();
    assert_eq!(plan.full_chunks * FIXTURE_CHUNK_SIZE + plan.tail, 5368709120);
}

#[test]
fn second_generation_writes_nothing() {
    let size = Bytes::from_bytes(3000);
    let first = fixture_write_plan(&size, false).unwrap();
    assert_eq!(first.full_chunks * FIXTURE_CHUNK_SIZE + first.tail, 3000);
    assert_eq!(fixture_write_plan(&size, true), None);
}

#[test]
fn chunk_is_filled_with_a() {
    let chunk = fixture_chunk();
    assert_eq!(chunk.len(), FIXTURE_CHUNK_SIZE);
    assert_eq!(FIXTURE_FILL_BYTE, b'a');
    assert!(chunk.iter().all(|&b| b == 97));
}

#[test]
fn read_trace_records_non_zero_reads() {
    let mut trace = ReadTrace::new(1024);
    assert!(trace.record(1000));
    assert!(trace.record(24));
    assert!(!trace.is_finished());
    assert!(!trace.record(0));
    assert!(trace.is_finished());
    assert_eq!(trace.buffer_size(), 1024);
    assert_eq!(trace.into_sizes(), vec![1000, 24]);
}

#[test]
fn read_trace_of_empty_file() {
    let mut trace = ReadTrace::new(256);
    assert!(!trace.record(0));
    assert_eq!(trace.into_sizes(), Vec::<usize>::new());
}

#[test]
fn one_kib_fixture_end_to_end() {
    let size = Bytes::from_bytes(1024);
    assert_eq!(fixture_file_name(&size), "1kib.bin");
    let plan = fixture_write_plan(&size, false).unwrap();
    let chunk = fixture_chunk();
    let mut content: Vec<u8> = Vec::new();
    for _ in 0..plan.full_chunks {
        content.extend_from_slice(&chunk);
    }
    content.extend_from_slice(&chunk[..plan.tail]);
    assert_eq!(content.len(), 1024);
    assert!(content.iter().all(|&b| b == 97));

    let buffer_size = 256;
    let mut trace = ReadTrace::new(buffer_size);
    let mut offset = 0;
    loop {
        let n = (content.len() - offset).min(buffer_size);
        offset += n;
        if !trace.record(n) {
            break;
        }
    }
    let sizes = trace.into_sizes();
    assert_eq!(sizes.iter().sum::<usize>(), 1024);
    assert!(sizes.iter().all(|&n| n > 0 && n <= buffer_size));
}

#[test]
fn help_flags() {
    assert!(is_help_flag(&&"-h".to_string()));
    assert!(is_help_flag(&&"--help".to_string()));
    assert!(!is_help_flag(&&"-help".to_string()));
    assert!(!is_help_flag(&&"5gib".to_string()));
}

#[test]
fn output_dir_defaults_to_fixtures() {
    assert_eq!(output_dir_path("/work/gen", None), "/work/gen/../fixtures");
    assert_eq!(output_dir_path("/work/gen", Some("out")), "/work/gen/../out");
    assert_eq!(output_dir_path("/work/gen", Some("/tmp/x")), "/tmp/x");
}

#[test]
fn output_dir_resolves_dots() {
    assert_eq!(resolve_output_dir("/work/gen", None), Some("/work/fixtures".to_string()));
    assert_eq!(resolve_output_dir("/work/gen", Some("a/./b/../c")), Some("/work/a/c".to_string()));
    assert_eq!(resolve_output_dir("/work/gen", Some("/tmp/x")), Some("/tmp/x".to_string()));
}

#[test]
fn relative_output_dir_is_not_resolved() {
    assert_eq!(resolve_output_dir("a", Some("..")), None);
    assert_eq!(resolve_output_dir("work", None), None);
    assert_eq!(resolve_output_dir("work", Some("/tmp/y/../z")), Some("/tmp/z".to_string()));
}
