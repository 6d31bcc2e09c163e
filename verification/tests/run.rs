use schema_dumper::fetch::{pending_reads, record_answer, widen};
use schema_dumper::image::{Export, MemoryImage, ModuleRecord};
use schema_dumper::orchestrator::{destination, run, summarize, RunError};
use schema_dumper::render::ConfigError;
use schema_dumper::walker::{walk, Anchor, ModulePlan, RootTable, TableKind};

const ORIGIN: u64 = 0x1_4000_0000;

fn put_u32(bytes: &mut [u8], at: usize, v: u32) {
    bytes[at..at + 4].copy_from_slice(&v.to_le_bytes());
}

fn put_u64(bytes: &mut [u8], at: usize, v: u64) {
    bytes[at..at + 8].copy_from_slice(&v.to_le_bytes());
}

fn put_text(bytes: &mut [u8], at: usize, text: &[u8]) {
    bytes[at..at + text.len()].copy_from_slice(text);
    bytes[at + text.len()] = 0;
}

/// The memory of a target whose module `A` has one class `Foo` with the field `bar` at
/// offset 8.
fn target_memory() -> Vec<u8> {
    let mut bytes = vec![0u8; 0x2000];
    put_u32(&mut bytes, 0x10, 1);
    put_u64(&mut bytes, 0x18, ORIGIN + 0x20);
    put_u64(&mut bytes, 0x20, ORIGIN + 0x40);
    put_u64(&mut bytes, 0x40, ORIGIN + 0x1100);
    put_u32(&mut bytes, 0x48, 0x10);
    put_u32(&mut bytes, 0x4c, 1);
    put_u64(&mut bytes, 0x50, ORIGIN + 0x80);
    put_u64(&mut bytes, 0x80, ORIGIN + 0x1110);
    put_u32(&mut bytes, 0x90, 8);
    put_text(&mut bytes, 0x1100, b"Foo");
    put_text(&mut bytes, 0x1110, b"bar");
    bytes
}

fn module_a() -> ModuleRecord {
    ModuleRecord {
        name: b"A".to_vec(),
        base: ORIGIN,
        size: 0x2000,
        exports: vec![Export { name: b"schema".to_vec(), address: ORIGIN + 0x10 }],
    }
}

fn target_image() -> MemoryImage {
    let mut image = MemoryImage::new();
    image.record_module(module_a());
    image.record_bytes(ORIGIN, target_memory());
    image
}

fn plans() -> Vec<ModulePlan> {
    let table = || RootTable {
        kind: TableKind::Classes,
        anchor: Anchor::Export(b"schema".to_vec()),
        hops: Vec::new(),
    };
    vec![
        ModulePlan { name: b"A".to_vec(), tables: vec![table()] },
        ModulePlan { name: b"B".to_vec(), tables: vec![table()] },
    ]
}

fn tags(names: &[&[u8]]) -> Vec<Vec<u8>> {
    names.iter().map(|n| n.to_vec()).collect()
}

fn holds(haystack: &[u8], needle: &[u8]) -> bool {
    haystack.windows(needle.len()).any(|w| w == needle)
}

#[test]
fn a_run_renders_the_resolved_module_and_not_the_missing_one() {
    let image = target_image();
    let report = run(&image, &plans(), &tags(&[b"json", b"header"]), 4, b"out".to_vec()).unwrap();
    let paths: Vec<Vec<u8>> = report.files.iter().map(|f| f.path.clone()).collect();
    assert_eq!(paths, vec![b"A.hpp".to_vec(), b"schema.json".to_vec()]);
    assert_eq!(report.destinations, vec![b"out/A.hpp".to_vec(), b"out/schema.json".to_vec()]);

    let header = String::from_utf8(report.files[0].content.clone()).unwrap();
    let expected_header = [
        "#pragma once",
        "",
        "#include <cstddef>",
        "#include <cstdint>",
        "",
        "namespace A { // A",
        "    namespace Foo { // size 0x10",
        "        constexpr std::ptrdiff_t bar = 0x8;",
        "    }",
        "}",
        "",
    ]
    .join("\n");
    assert_eq!(header, expected_header);

    let json = String::from_utf8(report.files[1].content.clone()).unwrap();
    let expected_json = [
        "{",
        "    \"modules\": [",
        "        {",
        "            \"name\": \"A\",",
        "            \"classes\": [",
        "                {",
        "                    \"name\": \"Foo\",",
        "                    \"size\": 16,",
        "                    \"parent\": null,",
        "                    \"fields\": [",
        "                        { \"name\": \"bar\", \"offset\": 8, \"type\": null }",
        "                    ]",
        "                }",
        "            ],",
        "            \"enums\": [",
        "            ],",
        "            \"offsets\": [",
        "            ]",
        "        }",
        "    ]",
        "}",
        "",
    ]
    .join("\n");
    assert_eq!(json, expected_json);
    assert!(!holds(json.as_bytes(), b"\"B\""));

    assert_eq!(report.summary.len(), 2);
    assert_eq!(report.summary[0].name, b"A".to_vec());
    assert_eq!(report.summary[0].resolved, 1);
    assert_eq!(report.summary[0].gaps, 0);
    assert_eq!(report.summary[1].name, b"B".to_vec());
    assert_eq!(report.summary[1].resolved, 0);
    assert_eq!(report.summary[1].gaps, 1);
    assert_eq!(report.gaps.len(), 1);
    assert_eq!(report.gaps[0].module, 1);
}

#[test]
fn repeated_runs_give_the_same_files() {
    let image = target_image();
    let first = run(&image, &plans(), &tags(&[b"json", b"header"]), 4, b"out".to_vec()).unwrap();
    let second = run(&image, &plans(), &tags(&[b"header", b"json"]), 4, b"out".to_vec()).unwrap();
    assert_eq!(first.files.len(), second.files.len());
    for i in 0..first.files.len() {
        assert_eq!(first.files[i].path, second.files[i].path);
        assert_eq!(first.files[i].content, second.files[i].content);
    }
    assert_eq!(first.destinations, second.destinations);
    assert_eq!(first.gaps, second.gaps);
}

#[test]
fn an_indent_of_zero_is_refused_before_the_target_is_touched() {
    let mut image = target_image();
    assert!(matches!(
        run(&image, &plans(), &tags(&[b"json"]), 0, b"out".to_vec()),
        Err(RunError::Config(ConfigError::ZeroIndent))
    ));
    image.available = false;
    assert!(matches!(
        run(&image, &plans(), &tags(&[b"json"]), 0, b"out".to_vec()),
        Err(RunError::Config(ConfigError::ZeroIndent))
    ));
}

#[test]
fn an_unknown_format_is_refused_and_gives_no_file() {
    let mut image = target_image();
    let request = tags(&[b"json", b"xml"]);
    assert!(matches!(
        run(&image, &plans(), &request, 4, b"out".to_vec()),
        Err(RunError::Config(ConfigError::UnknownFormat { position: 1 }))
    ));
    image.available = false;
    assert!(matches!(
        run(&image, &plans(), &request, 4, b"out".to_vec()),
        Err(RunError::Config(ConfigError::UnknownFormat { position: 1 }))
    ));
}

#[test]
fn a_target_that_cannot_be_reached_fails_the_run() {
    let mut image = target_image();
    image.available = false;
    assert!(matches!(
        run(&image, &plans(), &tags(&[b"json"]), 4, b"out".to_vec()),
        Err(RunError::PortUnavailable)
    ));
}

#[test]
fn a_run_without_formats_gives_no_file_but_a_summary() {
    let image = target_image();
    let report = run(&image, &plans(), &Vec::new(), 4, b"out".to_vec()).unwrap();
    assert!(report.files.is_empty());
    assert!(report.destinations.is_empty());
    assert_eq!(report.summary.len(), 2);
}

#[test]
fn a_destination_is_the_path_below_the_root() {
    assert_eq!(destination(b"out", b"A.hpp"), b"out/A.hpp".to_vec());
    assert_eq!(destination(b"out/", b"A.hpp"), b"out/A.hpp".to_vec());
    assert_eq!(destination(b"", b"A.hpp"), b"A.hpp".to_vec());
    assert_eq!(destination(b"/", b"schema.json"), b"/schema.json".to_vec());
    assert_eq!(destination(b"a/b", b"c"), b"a/b/c".to_vec());
}

#[test]
fn a_summary_counts_entries_and_gaps_per_planned_module() {
    let image = target_image();
    let outcome = walk(&image, &plans()).unwrap();
    let summary = summarize(&plans(), &outcome.model, &outcome.gaps);
    assert_eq!(summary.len(), 2);
    assert_eq!((summary[0].resolved, summary[0].gaps), (1, 0));
    assert_eq!((summary[1].resolved, summary[1].gaps), (0, 1));
    assert!(summarize(&Vec::new(), &outcome.model, &outcome.gaps).is_empty());
}

/// Answers reads as the target would: from the memory at `ORIGIN`, whole requests only.
fn answer(memory: &[u8], addr: u64, len: u64) -> Option<Vec<u8>> {
    let start = addr.checked_sub(ORIGIN)? as usize;
    let end = start.checked_add(len as usize)?;
    if end <= memory.len() {
        Some(memory[start..end].to_vec())
    } else {
        None
    }
}

#[test]
fn an_image_is_filled_in_rounds_until_nothing_is_pending() {
    let memory = target_memory();
    let mut image = MemoryImage::new();
    image.record_module(module_a());
    let mut rounds = 0;
    let outcome = loop {
        let outcome = walk(&image, &plans()).unwrap();
        let requests = pending_reads(&image, &outcome.gaps);
        if requests.is_empty() {
            break outcome;
        }
        rounds += 1;
        assert!(rounds < 10);
        for request in requests {
            if image.knows(request.addr, request.len) {
                continue;
            }
            let wide = widen(request);
            match answer(&memory, wide.addr, wide.len) {
                Some(bytes) => record_answer(&mut image, wide, Ok(bytes)),
                None => record_answer(
                    &mut image,
                    wide,
                    Err(schema_dumper::image::AccessError::OutOfRange {
                        addr: wide.addr,
                        len: wide.len,
                    }),
                ),
            }
        }
    };
    assert_eq!(rounds, 2);
    let whole = walk(&target_image(), &plans()).unwrap();
    assert_eq!(outcome.gaps, whole.gaps);
    let class = &outcome.model.modules()[0].classes()[0];
    assert_eq!(class.name, b"Foo".to_vec());
    assert_eq!(class.fields[0].name, b"bar".to_vec());
    assert_eq!(class.fields[0].offset, 8);
}
