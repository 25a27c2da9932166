use rtic_sched::app::{App, ProbeDecl};
use rtic_sched::id_gen::{accepts, fold_digest, id_gen, IdGen, NonZeroIdRange, MAX_ID, MAX_TRIES};
use rtic_sched::manifest_gen::{
    cli_name, header_gen_args, manifest_gen, manifest_gen_args, probe_constant, Component, Probe,
    ProbeId, Probes, PROBE_CLI,
};

fn probe(id: u32, name: &str, description: &str) -> Probe {
    Probe {
        component_id: "c-1".to_string(),
        id: ProbeId(id),
        name: name.to_string(),
        description: description.to_string(),
        tags: "t".to_string(),
        file: "f.rs".to_string(),
        line: "4".to_string(),
    }
}

fn component() -> Component {
    Component {
        name: "modality-component".to_string(),
        id: "c-1".to_string(),
        code_hash: None,
        instrumentation_hash: None,
        tags: vec![],
    }
}

fn declared(task: &str, name: &str, description: Option<&str>) -> ProbeDecl {
    ProbeDecl {
        task: task.to_string(),
        name: name.to_string(),
        description: description.map(|d| d.to_string()),
        storage_name: format!("{}_storage", name),
        local_name: name.to_string(),
    }
}

fn app_with(probes: Vec<ProbeDecl>) -> App {
    App {
        device: "pac".to_string(),
        levels: 16,
        init: "init".to_string(),
        init_local_resources: vec![],
        idle_shared_resources: vec![],
        software_tasks: vec![],
        hardware_tasks: vec![],
        shared_resources: vec![],
        local_resources: vec![],
        monotonics: vec![],
        dispatchers: vec![],
        probes,
    }
}

fn summary(list: &Probes) -> Vec<(u32, String, String)> {
    list.0.iter().map(|p| (p.id.0, p.name.clone(), p.description.clone())).collect()
}

#[test]
fn id_range_new_and_contains() {
    assert!(NonZeroIdRange::new(5, 4).is_none());
    assert!(NonZeroIdRange::new(0, 4).is_none());
    assert!(NonZeroIdRange::new(0, 0).is_none());
    let one = NonZeroIdRange::new(3, 3).unwrap();
    assert!(one.contains(3));
    assert!(!one.contains(2));
    assert!(!one.contains(4));
    let range = NonZeroIdRange::new(1, MAX_ID).unwrap();
    assert!(range.contains(1));
    assert!(range.contains(MAX_ID));
    assert!(!range.contains(0));
    assert!(!range.contains(MAX_ID + 1));
    assert_eq!(NonZeroIdRange::new(1, 9), NonZeroIdRange::new(1, 9));
    assert_ne!(NonZeroIdRange::new(1, 9), NonZeroIdRange::new(2, 9));
}

#[test]
fn accepts_nonzero_ids_of_the_range() {
    let range = NonZeroIdRange::new(2, 10).unwrap();
    assert!(accepts(&range, 2));
    assert!(accepts(&range, 10));
    assert!(!accepts(&range, 0));
    assert!(!accepts(&range, 1));
    assert!(!accepts(&range, 11));
}

#[test]
fn digest_folding() {
    assert_eq!(MAX_ID, 0x3FFF_FFFF);
    assert_eq!(MAX_TRIES, 65535);
    // leading 16 bits 0x0001, leading 32 bits 0x0001_0002: 1 * 0xFFFF_FFFF + 0x0001_0002
    assert_eq!(fold_digest(&vec![0x00, 0x01, 0x00, 0x02], u32::MAX), 0x0001_0001);
    // the sum wraps around at 32 bits
    assert_eq!(fold_digest(&vec![0xFF, 0xFF, 0xFF, 0xFF], u32::MAX), 0xFFFF_0000);
    assert_eq!(fold_digest(&vec![0xFF, 0xFF, 0xFF, 0xFF], 1000), 0xFFFF_0000u32 % 1000);
    assert_eq!(fold_digest(&vec![0, 0, 0, 0, 9, 9], 7), 0);
    assert_eq!(fold_digest(&vec![0xda, 0xdd, 0xff, 0x32], MAX_ID), 450700376);
    assert_eq!(fold_digest(&vec![1, 2, 3, 4], 1), 0);
}

#[test]
fn token_hash_is_the_folded_digest_of_salt_and_token() {
    let range = NonZeroIdRange::new(1, MAX_ID).unwrap();
    let gen = IdGen::with_salt(range, (1..=16u8).collect());
    // SHA3-256 of the bytes 1..=16 followed by "BLINK" starts with da dd ff 32
    assert_eq!(gen.token_hash("BLINK"), 450700376);
    let other = IdGen::with_salt(range, (2..=17u8).collect());
    assert_ne!(other.token_hash("BLINK"), 450700376);
    assert_ne!(gen.token_hash("BLINKY"), 450700376);
}

#[test]
fn hashed_id_lies_in_the_range() {
    let range = NonZeroIdRange::new(1, MAX_ID).unwrap();
    let mut gen = IdGen::with_salt(range, (1..=16u8).collect());
    assert_eq!(gen.hashed_id("BLINK"), Some(450700376));
    let narrow = NonZeroIdRange::new(3, 4).unwrap();
    let mut gen = IdGen::new(narrow);
    let found = gen.hashed_id("probe").expect("one of two values in four is hit quickly");
    assert!(found == 3);
    assert_eq!(gen.token_hash("probe"), found);
}

#[test]
fn search_gives_up_when_no_salt_can_hit() {
    // what a salt gives lies below the end of the range, so a range of
    // one identifier is never hit
    let only = NonZeroIdRange::new(5, 5).unwrap();
    let mut gen = IdGen::with_salt(only, (1..=16u8).collect());
    assert!(gen.token_hash("BLINK") < 5);
    assert_eq!(gen.hashed_id("BLINK"), None);
    let one = NonZeroIdRange::new(1, 1).unwrap();
    let mut gen = IdGen::new(one);
    assert_eq!(gen.token_hash("probe"), 0);
    assert_eq!(gen.hashed_id("probe"), None);
    let wide = NonZeroIdRange::new(1, MAX_ID).unwrap();
    let mut gen = IdGen::with_salt(wide, (1..=16u8).collect());
    assert_eq!(gen.hashed_id("BLINK"), Some(450700376));
    assert_eq!(gen.token_hash("BLINK"), 450700376);
}

#[test]
fn salts_are_drawn_afresh() {
    let range = NonZeroIdRange::new(1, MAX_ID).unwrap();
    let mut gen = IdGen::new(range);
    let first = gen.token_hash("probe");
    assert_eq!(gen.token_hash("probe"), first);
    let mut changed = false;
    for _ in 0..8 {
        gen.regenerate_uuid();
        if gen.token_hash("probe") != first {
            changed = true;
        }
    }
    assert!(changed);
    let again = IdGen::new(range);
    let third = IdGen::new(range);
    assert!(again.token_hash("probe") != first || third.token_hash("probe") != first);
}

#[test]
fn id_gen_yields_a_valid_id() {
    for name in ["a", "PROBE_BLINK", ""] {
        let id = id_gen(name).expect("an identifier is found");
        assert!(1 <= id && id < MAX_ID);
    }
}

#[test]
fn manifest_paths() {
    assert_eq!(Component::component_manifest_path("comp"), "comp/Component.toml");
    assert_eq!(Component::component_manifest_path("comp/"), "comp/Component.toml");
    assert_eq!(Component::component_manifest_path(""), "Component.toml");
    assert_eq!(Component::component_manifest_path("/a/b"), "/a/b/Component.toml");
    assert_eq!(Component::probes_manifest_path("comp"), "comp/probes.csv");
    assert_eq!(Component::probes_manifest_path("comp/"), "comp/probes.csv");
    assert_eq!(Component::probes_manifest_path(""), "probes.csv");
    let with_std = std::path::Path::new("target/modality-component").join("probes.csv");
    assert_eq!(
        Component::probes_manifest_path("target/modality-component"),
        with_std.to_str().unwrap()
    );
}

#[test]
fn position_finds_the_first_line_of_a_name() {
    let list = Probes(vec![probe(3, "A", ""), probe(1, "B", ""), probe(2, "A", "")]);
    assert_eq!(list.position(&"A".to_string()), Some(0));
    assert_eq!(list.position(&"B".to_string()), Some(1));
    assert_eq!(list.position(&"a".to_string()), None);
    assert_eq!(Probes(vec![]).position(&"A".to_string()), None);
}

#[test]
fn merge_renews_or_appends() {
    let mut list = Probes(vec![probe(3, "A", "old"), probe(1, "B", "keep"), probe(2, "A", "twin")]);
    list.merge(&"c-9".to_string(), "A".to_string(), "new".to_string(), 77);
    assert_eq!(
        summary(&list),
        vec![
            (3, "A".to_string(), "new".to_string()),
            (1, "B".to_string(), "keep".to_string()),
            (2, "A".to_string(), "twin".to_string()),
        ]
    );
    assert_eq!(list.0[0].component_id, "c-1");
    list.merge(&"c-9".to_string(), "C".to_string(), "fresh".to_string(), 77);
    assert_eq!(list.0.len(), 4);
    let added = &list.0[3];
    assert_eq!(added.component_id, "c-9");
    assert_eq!(added.id, ProbeId(77));
    assert_eq!(added.name, "C");
    assert_eq!(added.description, "fresh");
    assert_eq!(added.tags, "RTIC;task");
    assert_eq!(added.file, "");
    assert_eq!(added.line, "");
}

#[test]
fn sort_is_by_id_and_stable() {
    let mut list = Probes(vec![
        probe(5, "E", "1"),
        probe(2, "B", "2"),
        probe(5, "E2", "3"),
        probe(1, "A", "4"),
        probe(2, "B2", "5"),
    ]);
    list.sort_by_id();
    let names: Vec<&str> = list.0.iter().map(|p| p.name.as_str()).collect();
    assert_eq!(names, vec!["A", "B", "B2", "E", "E2"]);
    let mut empty = Probes(vec![]);
    empty.sort_by_id();
    assert!(empty.0.is_empty());
}

#[test]
fn names_are_put_in_upper_case() {
    let mut list = Probes(vec![probe(1, "blink_probe", "d"), probe(2, "Straße", "e")]);
    list.normalize_names();
    assert_eq!(list.0[0].name, "BLINK_PROBE");
    assert_eq!(list.0[0].description, "d");
    assert_eq!(list.0[0].id, ProbeId(1));
    assert_eq!(list.0[1].name, "STRASSE");
}

#[test]
fn manifest_is_brought_up_to_date() {
    let list = Probes(vec![probe(900_000_000, "PROBE_UART", "old"), probe(5, "PROBE_IDLE", "idle")]);
    let app = app_with(vec![
        declared("uart", "probe_uart", Some("uart probe")),
        declared("blink", "probe_blink", None),
        declared("tick", "probe_idle", None),
    ]);
    let out = manifest_gen(&component(), list, &app).expect("an identifier is found");
    assert_eq!(out.0.len(), 3);
    let ids: Vec<u32> = out.0.iter().map(|p| p.id.0).collect();
    let mut rising = ids.clone();
    rising.sort();
    assert_eq!(ids, rising);
    assert_eq!(out.0[0].name, "PROBE_IDLE");
    assert_eq!(out.0[0].description, "Probe for task tick");
    assert_eq!(out.0[0].id, ProbeId(5));
    let uart = out.0.iter().find(|p| p.name == "PROBE_UART").unwrap();
    assert_eq!(uart.description, "uart probe");
    assert_eq!(uart.id, ProbeId(900_000_000));
    assert_eq!(uart.tags, "t");
    let blink = out.0.iter().find(|p| p.name == "PROBE_BLINK").unwrap();
    assert_eq!(blink.description, "Probe for task blink");
    assert_eq!(blink.component_id, "c-1");
    assert_eq!(blink.tags, "RTIC;task");
    assert!(1 <= blink.id.0 && blink.id.0 < MAX_ID);
    assert_eq!(blink.file, "");
    assert_eq!(blink.line, "");
}

#[test]
fn probe_constants_are_the_names_in_upper_case() {
    let app = app_with(vec![declared("a", "probe_x", None), declared("b", "Probe_Y", None)]);
    assert_eq!(probe_constant(&app, 0), Some("PROBE_X".to_string()));
    assert_eq!(probe_constant(&app, 1), Some("PROBE_Y".to_string()));
    assert_eq!(probe_constant(&app, 2), None);
}

fn lines(list: &Probes) -> Vec<(String, u32, String, String, String, String, String)> {
    list.0
        .iter()
        .map(|p| {
            (
                p.component_id.clone(),
                p.id.0,
                p.name.clone(),
                p.description.clone(),
                p.tags.clone(),
                p.file.clone(),
                p.line.clone(),
            )
        })
        .collect()
}

#[test]
fn a_second_update_reproduces_the_first() {
    let list = Probes(vec![probe(900_000_000, "PROBE_UART", "old"), probe(5, "PROBE_IDLE", "idle")]);
    let app = app_with(vec![
        declared("uart", "probe_uart", Some("uart probe")),
        declared("blink", "probe_blink", None),
        declared("blink2", "PROBE_BLINK", Some("again")),
        declared("tick", "probe_tick", None),
    ]);
    let once = manifest_gen(&component(), list, &app).unwrap();
    let first = lines(&once);
    assert_eq!(first.len(), 4);
    let twice = manifest_gen(&component(), once, &app).unwrap();
    assert_eq!(lines(&twice), first);
}

#[test]
fn sort_keeps_lines_of_one_identifier_in_order() {
    let mut list = Probes(vec![
        probe(7, "C", "1"),
        probe(7, "A", "2"),
        probe(3, "Z", "3"),
        probe(7, "B", "4"),
        probe(3, "Y", "5"),
    ]);
    list.sort_by_id();
    let order: Vec<(u32, &str)> = list.0.iter().map(|p| (p.id.0, p.name.as_str())).collect();
    assert_eq!(order, vec![(3, "Z"), (3, "Y"), (7, "C"), (7, "A"), (7, "B")]);
}

#[test]
fn manifest_lists_a_name_declared_twice_once() {
    let app = app_with(vec![
        declared("a", "probe_x", Some("first")),
        declared("b", "PROBE_X", Some("second")),
    ]);
    let out = manifest_gen(&component(), Probes(vec![]), &app).unwrap();
    assert_eq!(out.0.len(), 1);
    assert_eq!(out.0[0].name, "PROBE_X");
    assert_eq!(out.0[0].description, "second");
}

#[test]
fn command_lines() {
    assert_eq!(PROBE_CLI, "modality-probe");
    assert_eq!(cli_name(""), "modality-probe");
    assert_eq!(cli_name(".exe"), "modality-probe.exe");
    assert_eq!(
        manifest_gen_args("out/dir"),
        vec![
            "manifest-gen",
            "--verbose",
            "--lang",
            "rust",
            "--file-extension",
            "rs",
            "--component-name",
            "modality-component",
            "--output-path",
            "out/dir",
            "src/main.rs"
        ]
    );
    assert_eq!(
        header_gen_args("out/dir", "target/defs.rs"),
        vec!["header-gen", "--lang", "rust", "--output-path", "target/defs.rs", "out/dir"]
    );
}
