use cadmium::digest::sha_hex;
use cadmium::geometry::Scalar;
use cadmium::operation::{Face, Numeral, Operation, Plane};
use cadmium::oplog::{id_from_op_and_parent, Commit, EvolutionLog, OpLog};
use cadmium::text::{decimal_string, hex_string};

const ROOT_HASH: &str = "c37bc3fd76bafba0f6d54d70714de83a1d366f0fd86b75204ecbb1badfb17a31";
const ROOT_ID: &str = "401d2919495f114c27147ed94c0a8d9b14852e66b3d64fef1e7c36cfde3d2ea6";
const WORKBENCH_ID: &str = "be698d732e4256bef160433ed87ffe417fcdba14ce2c92a738b948b47f9e2743";
const PLANE_ID: &str = "937cb00af2be309c7b5ba27bfe049b3f5ec3e155ba10ad25ae632841383f29d9";
const COPY_ID: &str = "e9f7af1db32471d3f90f15cd7ed0e518c9db76c89ce17e910dd43f2b51441d13";
const ALIAS_ID: &str = "28911b8978591d81309ce4b9a7f618ade51f94da326373fb6ea863398f4ba96d";

fn s(text: &str) -> String {
    text.to_string()
}

fn num(x: f64) -> Numeral {
    Numeral { value: Scalar::from_bits(x.to_bits()), plain: format!("{}", x), debug: format!("{:?}", x) }
}

fn workbench() -> Operation {
    Operation::CreateWorkbench { nonce: s("wb-1") }
}

fn plane(workbench_id: &str) -> Operation {
    Operation::CreatePlane { nonce: s("pl-1"), workbench_id: s(workbench_id) }
}

#[test]
fn numbers_are_written_in_decimal() {
    assert_eq!(decimal_string(0), "0");
    assert_eq!(decimal_string(7), "7");
    assert_eq!(decimal_string(10), "10");
    assert_eq!(decimal_string(4096), "4096");
    assert_eq!(decimal_string(u64::MAX), "18446744073709551615");
}

#[test]
fn bytes_are_written_in_lower_case_hex() {
    assert_eq!(hex_string(&vec![]), "");
    assert_eq!(hex_string(&vec![0x0a, 0x14, 0x1e]), "0a141e");
    assert_eq!(hex_string(&vec![0x00, 0xff, 0x9c]), "00ff9c");
}

#[test]
fn a_text_hashes_to_its_sha256() {
    assert_eq!(sha_hex("abc"), "ba7816bf8f01cfea414140de5dae2223b00361a396177a9cb410ff61f20015ad");
    assert_eq!(sha_hex(""), "e3b0c44298fc1c149afbf4c8996fb92427ae41e4649b934ca495991b7852b855");
    assert_ne!(sha_hex("abc"), "abc");
}

#[test]
fn the_root_commit_is_fixed() {
    let root = Commit::init();
    assert_eq!(root.parent, "");
    assert_eq!(root.content_hash, ROOT_HASH);
    assert_eq!(root.id, ROOT_ID);
    assert!(matches!(&root.operation, Operation::Create { nonce } if nonce == "Hello World"));
    assert_eq!(root.pretty_print(), "401d291949: Create: Hello World");
    assert_eq!(root.to_string(), "401d29: Create: Hello World");
}

#[test]
fn an_oplog_only_grows() {
    let mut log = OpLog::new();
    assert_eq!(log.get_length(), 0);
    assert!(log.last().is_none());
    log.init();
    assert_eq!(log.get_length(), 1);
    assert_eq!(log.last().unwrap().id, ROOT_ID);
    let commit = log.append(&s(ROOT_ID), workbench());
    assert_eq!(commit.parent, ROOT_ID);
    assert_eq!(commit.content_hash, "1a1bec0be8f2c3bd99ec3c8eed441fbdf5c1232c990ad8253d8b7d08daebbae1");
    assert_eq!(commit.id, WORKBENCH_ID);
    assert_eq!(log.get_length(), 2);
    assert_eq!(log.last().unwrap().id, WORKBENCH_ID);
    assert_eq!(log.get(0).id, ROOT_ID);
    assert_eq!(log.find(&s(WORKBENCH_ID)), Some(1));
    assert_eq!(log.find(&s("missing")), None);
}

#[test]
fn an_identity_depends_on_operation_parent_and_position() {
    let base = id_from_op_and_parent(&workbench(), &s(ROOT_ID), 1);
    assert_eq!(base, WORKBENCH_ID);
    assert_eq!(id_from_op_and_parent(&workbench(), &s(ROOT_ID), 1), base);
    assert_ne!(id_from_op_and_parent(&workbench(), &s(ROOT_ID), 2), base);
    assert_ne!(id_from_op_and_parent(&workbench(), &s(WORKBENCH_ID), 1), base);
    let other = Operation::CreateWorkbench { nonce: s("wb-2") };
    assert_ne!(id_from_op_and_parent(&other, &s(ROOT_ID), 1), base);
    assert_ne!(id_from_op_and_parent(&workbench(), &s("1"), 11), id_from_op_and_parent(&workbench(), &s("1-1"), 1));
}

#[test]
fn every_parent_is_an_earlier_commit() {
    let mut log = EvolutionLog::new();
    let wb = log.append(workbench());
    log.append(plane(&wb));
    log.checkout(wb.clone()).unwrap();
    log.append(Operation::SetWorkbenchName { workbench_id: wb.clone(), name: s("Bench") });
    for i in 1..log.oplog.get_length() {
        let parent = log.oplog.get(i).parent.clone();
        let place = log.oplog.find(&parent).unwrap();
        assert!(place < i);
    }
    assert_eq!(log.oplog.get(0).parent, "");
}

#[test]
fn appending_moves_the_cursor() {
    let mut log = EvolutionLog::new();
    assert_eq!(log.cursor, ROOT_ID);
    assert_eq!(log.oplog.get_length(), 1);
    let wb = log.append(workbench());
    assert_eq!(wb, WORKBENCH_ID);
    assert_eq!(log.cursor, WORKBENCH_ID);
    let pl = log.append(plane(&wb));
    assert_eq!(pl, PLANE_ID);
    assert_eq!(log.cursor, PLANE_ID);
    assert_eq!(log.oplog.get(2).parent, WORKBENCH_ID);
    assert_eq!(log.oplog.get_length(), 3);
}

#[test]
fn checkout_moves_the_cursor_only_to_a_known_commit() {
    let mut log = EvolutionLog::new();
    let wb = log.append(workbench());
    assert_eq!(log.checkout(s(ROOT_ID)), Ok(s(ROOT_ID)));
    assert_eq!(log.cursor, ROOT_ID);
    assert_eq!(log.checkout(s("abc")), Err(s("SHA abc not found in oplog")));
    assert_eq!(log.cursor, ROOT_ID);
    assert_eq!(log.checkout(wb.clone()), Ok(wb.clone()));
    assert_eq!(log.cursor, wb);
    assert_eq!(log.oplog.get_length(), 2);
}

#[test]
fn cherry_pick_of_a_create_operation_adds_an_alias() {
    let mut log = EvolutionLog::new();
    let wb = log.append(workbench());
    let pl = log.append(plane(&wb));
    let picked = log.cherry_pick(pl.clone()).unwrap();
    assert_eq!(log.oplog.get_length(), 5);
    assert_eq!(picked, COPY_ID);
    assert_eq!(log.cursor, ALIAS_ID);
    let copy = log.oplog.get(3);
    assert_eq!(copy.id, COPY_ID);
    assert_eq!(copy.parent, PLANE_ID);
    assert!(matches!(&copy.operation, Operation::CreatePlane { nonce, workbench_id } if nonce == "pl-1" && workbench_id == WORKBENCH_ID));
    let alias = log.oplog.get(4);
    assert_eq!(alias.parent, COPY_ID);
    assert!(matches!(&alias.operation, Operation::Alias { original, new } if original == PLANE_ID && new == COPY_ID));
}

#[test]
fn cherry_pick_of_another_operation_adds_one_commit() {
    let mut log = EvolutionLog::new();
    let wb = log.append(workbench());
    let named = log.append(Operation::SetWorkbenchName { workbench_id: wb.clone(), name: s("Bench") });
    log.checkout(wb.clone()).unwrap();
    let picked = log.cherry_pick(named.clone()).unwrap();
    assert_eq!(log.oplog.get_length(), 4);
    assert_eq!(log.cursor, picked);
    assert_ne!(picked, named);
    let copy = log.oplog.get(3);
    assert_eq!(copy.id, picked);
    assert_eq!(copy.parent, wb);
    assert_eq!(copy.content_hash, log.oplog.get(2).content_hash);
    assert!(matches!(&copy.operation, Operation::SetWorkbenchName { name, .. } if name == "Bench"));
}

#[test]
fn cherry_pick_of_an_unknown_commit_fails() {
    let mut log = EvolutionLog::new();
    assert_eq!(log.cherry_pick(s("abc")), Err(s("SHA abc not found in oplog")));
    assert_eq!(log.oplog.get_length(), 1);
    assert_eq!(log.cursor, ROOT_ID);
}

#[test]
fn only_planes_sketches_and_extrusions_are_created() {
    assert!(plane("w").is_create());
    assert!(Operation::CreateSketch { nonce: s("n"), workbench_id: s("w") }.is_create());
    assert!(Operation::CreateExtrusion { workbench_id: s("w"), nonce: s("n") }.is_create());
    assert!(!workbench().is_create());
    assert!(!Operation::Create { nonce: s("n") }.is_create());
    assert!(!Operation::CreateProject { nonce: s("n") }.is_create());
    assert!(!Operation::CreateFace { workbench_id: s("w"), sketch_id: s("k"), face: Face { debug: s("f") } }.is_create());
    assert!(!Operation::Alias { original: s("a"), new: s("b") }.is_create());
    assert!(!Operation::FinalizeSketch { workbench_id: s("w"), sketch_id: s("k") }.is_create());
}

#[test]
fn the_tree_lists_the_children_of_the_root() {
    let mut log = EvolutionLog::new();
    let tree = log.to_tree();
    assert_eq!(tree.commit, ROOT_ID);
    assert_eq!(tree.children.len(), 0);
    assert_eq!(tree.to_string(), ROOT_ID);
    let wb = log.append(workbench());
    log.append(plane(&wb));
    log.checkout(s(ROOT_ID)).unwrap();
    let other = log.append(Operation::CreateWorkbench { nonce: s("wb-2") });
    let tree = log.to_tree();
    assert_eq!(tree.commit, ROOT_ID);
    assert_eq!(tree.children, vec![wb, other]);
}

#[test]
fn the_graph_of_a_straight_log() {
    let mut log = EvolutionLog::new();
    let wb = log.append(workbench());
    log.append(plane(&wb));
    assert_eq!(
        log.git_log(),
        vec![
            s("Root:"),
            s("* 401d29: Create: Hello World"),
            s("* be698d: CreateWorkspace: wb-1"),
            s("* 937cb0: CreatePlane: be698d pl-1"),
        ]
    );
    assert_eq!(
        log.pretty_print(),
        vec![
            s("401d291949: Create: Hello World"),
            s("be698d732e: CreateWorkspace: wb-1"),
            s("937cb00af2: CreatePlane: be698d pl-1"),
        ]
    );
}

#[test]
fn the_graph_of_a_forked_log() {
    let mut log = EvolutionLog::new();
    let wb = log.append(workbench());
    let pl = log.append(plane(&wb));
    let named = log.append(Operation::SetPlaneName { plane_id: pl.clone(), name: s("Top") });
    log.checkout(wb.clone()).unwrap();
    let sk = log.append(Operation::CreateSketch { nonce: s("sk-1"), workbench_id: wb.clone() });
    assert_eq!(
        log.git_log(),
        vec![
            s("Root:"),
            s("* 401d29: Create: Hello World"),
            s("* be698d: CreateWorkspace: wb-1"),
            s("|\\"),
            s("| * 937cb0: CreatePlane: be698d pl-1"),
            format!("| * {}: SetPlaneName: 937cb0 'Top'", &named[..6]),
            format!("* {}: CreateSketch: be698d sk-1", &sk[..6]),
        ]
    );
    log.checkout(wb.clone()).unwrap();
    log.append(Operation::CreateSketch { nonce: s("sk-2"), workbench_id: wb.clone() });
    assert_eq!(
        log.git_log(),
        vec![s("Root:"), s("* 401d29: Create: Hello World"), s("* be698d: CreateWorkspace: wb-1")]
    );
}

#[test]
fn operations_hash_their_canonical_text() {
    let id = s("0123456789");
    let cases: Vec<(Operation, String)> = vec![
        (Operation::Create { nonce: s("n") }, s("n")),
        (Operation::Describe { description: s("d"), commit: id.clone() }, s("d-0123456789")),
        (Operation::Alias { original: s("a"), new: s("b") }, s("a-b")),
        (Operation::CreateProject { nonce: s("n") }, s("n")),
        (Operation::SetProjectName { project_id: id.clone(), name: s("P") }, s("0123456789-P")),
        (Operation::CreateWorkbench { nonce: s("n") }, s("n")),
        (Operation::SetWorkbenchName { workbench_id: id.clone(), name: s("W") }, s("0123456789-W")),
        (Operation::CreatePlane { nonce: s("n"), workbench_id: id.clone() }, s("n-0123456789")),
        (Operation::SetPlaneName { plane_id: id.clone(), name: s("N") }, s("0123456789-N")),
        (
            Operation::SetPlane { plane_id: id.clone(), plane: Plane { debug: s("Plane { x: 1.0 }") } },
            s("0123456789-Plane { x: 1.0 }"),
        ),
        (Operation::CreateSketch { nonce: s("n"), workbench_id: id.clone() }, s("n-0123456789")),
        (Operation::SetSketchName { sketch_id: id.clone(), name: s("S") }, s("0123456789-S")),
        (Operation::SetSketchPlane { sketch_id: id.clone(), plane_id: s("p") }, s("0123456789-p")),
        (
            Operation::AddSketchRectangle { sketch_id: s("s"), x: num(1.0), y: num(2.0), width: num(3.0), height: num(4.0) },
            s("s-1-2-3-4"),
        ),
        (
            Operation::AddSketchCircle { sketch_id: s("s"), x: num(1.5), y: num(-2.0), radius: num(0.25) },
            s("s-1.5--2-0.25"),
        ),
        (
            Operation::AddSketchLine { sketch_id: s("s"), start: (num(0.0), num(0.0)), end: (num(1.0), num(2.5)) },
            s("s-(0.0, 0.0)-(1.0, 2.5)"),
        ),
        (Operation::AddSketchHandle { sketch_id: s("s"), position: (num(1.0), num(1e-7)) }, s("s-(1.0, 1e-7)")),
        (Operation::FinalizeSketch { workbench_id: s("w"), sketch_id: s("k") }, s("w-k")),
        (
            Operation::CreateFace { workbench_id: s("w"), sketch_id: s("k"), face: Face { debug: s("Face { }") } },
            s("w-k-Face { }"),
        ),
        (Operation::CreateExtrusion { workbench_id: s("w"), nonce: s("n") }, s("w-n")),
        (Operation::SetExtrusionName { extrusion_id: s("e"), name: s("E") }, s("e-E")),
        (Operation::SetExtrusionSketch { extrusion_id: s("e"), sketch_id: s("k") }, s("e-k")),
        (Operation::SetExtrusionHandles { extrusion_id: s("e1"), handles: vec![s("aa"), s("bb")] }, s("e1-aa-bb")),
        (Operation::SetExtrusionHandles { extrusion_id: s("e1"), handles: vec![s("aa")] }, s("e1-aa")),
        (Operation::SetExtrusionHandles { extrusion_id: s("e1"), handles: vec![] }, s("e1-")),
        (Operation::SetExtrusionDepth { extrusion_id: s("e"), depth: num(12.5) }, s("e-12.5")),
    ];
    for (operation, text) in cases.iter() {
        assert_eq!(&operation.serialize(), text);
        assert_eq!(operation.hash(), sha_hex(&format!("cadmium{}", text)));
    }
    assert_eq!(
        Operation::AddSketchRectangle { sketch_id: s("s"), x: num(1.0), y: num(2.0), width: num(3.0), height: num(4.0) }.hash(),
        "dd9140b9e53d2e88429d894714e7f6f96735b34ef8aa95cbf32f2d1ab8b64ddd"
    );
    assert_eq!(
        Operation::SetExtrusionHandles { extrusion_id: s("e1"), handles: vec![s("aa"), s("bb")] }.hash(),
        "6069a2aefe18d77aea6717b7be38a35066cdb8f756ce7380b59c38adcf9fb10e"
    );
    assert_eq!(Operation::Create { nonce: s("Hello World") }.hash(), ROOT_HASH);
}

#[test]
fn operations_print_with_short_identities() {
    let id = s("0123456789");
    let other = s("abcdefghij");
    let cases: Vec<(Operation, &str)> = vec![
        (Operation::Create { nonce: s("n") }, "Create: n"),
        (Operation::Describe { description: s("what"), commit: id.clone() }, "Describe: 012345 'what'"),
        (Operation::Alias { original: id.clone(), new: other.clone() }, "Alias: from 012345 to abcdef"),
        (Operation::CreateProject { nonce: s("n") }, "CreateProject: n"),
        (Operation::SetProjectName { project_id: id.clone(), name: s("P") }, "SetProjectName: 012345 'P'"),
        (Operation::CreateWorkbench { nonce: s("n") }, "CreateWorkspace: n"),
        (Operation::SetWorkbenchName { workbench_id: id.clone(), name: s("W") }, "SetWorkspaceName: 012345 'W'"),
        (Operation::CreatePlane { nonce: s("n"), workbench_id: id.clone() }, "CreatePlane: 012345 n"),
        (Operation::SetPlaneName { plane_id: id.clone(), name: s("N") }, "SetPlaneName: 012345 'N'"),
        (Operation::SetPlane { plane_id: id.clone(), plane: Plane { debug: s("Plane") } }, "SetPlane: 012345"),
        (Operation::CreateSketch { nonce: s("n"), workbench_id: id.clone() }, "CreateSketch: 012345 n"),
        (Operation::SetSketchName { sketch_id: id.clone(), name: s("S") }, "SetSketchName: 012345 'S'"),
        (Operation::SetSketchPlane { sketch_id: id.clone(), plane_id: other.clone() }, "SetSketchPlane: 012345 abcdef"),
        (
            Operation::AddSketchRectangle { sketch_id: id.clone(), x: num(1.0), y: num(2.0), width: num(3.0), height: num(4.5) },
            "AddSketchRectangle: 012345 (1, 2) 3x4.5",
        ),
        (
            Operation::AddSketchCircle { sketch_id: id.clone(), x: num(1.5), y: num(-2.0), radius: num(0.25) },
            "AddSketchCircle: 012345 (1.5, -2) r=0.25",
        ),
        (
            Operation::AddSketchLine { sketch_id: id.clone(), start: (num(0.0), num(0.5)), end: (num(1.0), num(2.5)) },
            "AddSketchLine: 012345 (0, 0.5) to (1, 2.5)",
        ),
        (Operation::AddSketchHandle { sketch_id: id.clone(), position: (num(1.0), num(2.0)) }, "AddSketchHandle: 012345 (1, 2)"),
        (Operation::FinalizeSketch { workbench_id: id.clone(), sketch_id: other.clone() }, "FinalizeSketch: 012345 abcdef"),
        (
            Operation::CreateFace { workbench_id: id.clone(), sketch_id: other.clone(), face: Face { debug: s("Face { }") } },
            "CreateFace: 012345 abcdef Face { }",
        ),
        (Operation::CreateExtrusion { workbench_id: id.clone(), nonce: s("n") }, "CreateExtrusion: 012345 n"),
        (Operation::SetExtrusionName { extrusion_id: id.clone(), name: s("E") }, "SetExtrusionName: 012345 'E'"),
        (Operation::SetExtrusionSketch { extrusion_id: id.clone(), sketch_id: other.clone() }, "SetExtrusionSketch: 012345 abcdef"),
        (
            Operation::SetExtrusionHandles { extrusion_id: id.clone(), handles: vec![other.clone(), id.clone()] },
            "SetExtrusionClicks: 012345 abcdef 012345 ",
        ),
        (Operation::SetExtrusionHandles { extrusion_id: id.clone(), handles: vec![] }, "SetExtrusionClicks: 012345 "),
        (Operation::SetExtrusionDepth { extrusion_id: id.clone(), depth: num(12.5) }, "SetExtrusionDepth: 012345 12.5"),
    ];
    for (operation, text) in cases.iter() {
        assert!(operation.is_printable());
        assert_eq!(&operation.pretty_print(), text);
        assert_eq!(&operation.to_string(), text);
    }
}

#[test]
fn an_operation_with_a_short_identity_is_not_printable() {
    assert!(!Operation::Describe { description: s("d"), commit: s("01234") }.is_printable());
    assert!(!Operation::SetPlaneName { plane_id: s("0123\u{e9}56"), name: s("n") }.is_printable());
    assert!(!Operation::SetExtrusionHandles { extrusion_id: s("012345"), handles: vec![s("012345"), s("0")] }.is_printable());
    assert!(Operation::SetExtrusionHandles { extrusion_id: s("012345"), handles: vec![s("012345")] }.is_printable());
    assert!(Operation::Create { nonce: s("") }.is_printable());
}

#[test]
fn a_copy_of_an_operation_is_the_operation() {
    let operation = Operation::SetExtrusionHandles { extrusion_id: s("e1"), handles: vec![s("aa"), s("bb")] };
    let copy = operation.clone();
    assert_eq!(copy.hash(), operation.hash());
    assert!(matches!(copy, Operation::SetExtrusionHandles { extrusion_id, handles } if extrusion_id == "e1" && handles == vec![s("aa"), s("bb")]));
    let line = Operation::AddSketchLine { sketch_id: s("s"), start: (num(0.0), num(0.0)), end: (num(1.0), num(2.5)) };
    assert_eq!(line.clone().serialize(), "s-(0.0, 0.0)-(1.0, 2.5)");
}

#[test]
fn a_log_is_restored_only_from_chained_commits() {
    let mut log = EvolutionLog::new();
    let wb = log.append(workbench());
    log.append(plane(&wb));
    let commits = log.oplog.commits();
    assert_eq!(commits.len(), 3);
    let restored = EvolutionLog::restore(wb.clone(), log.oplog.commits()).unwrap();
    assert_eq!(restored.cursor, wb);
    assert_eq!(restored.oplog.get_length(), 3);
    assert_eq!(restored.oplog.get(2).id, PLANE_ID);
    assert!(EvolutionLog::restore(s("nowhere"), log.oplog.commits()).is_none());
    assert!(OpLog::restore(vec![]).is_some());
    assert!(EvolutionLog::restore(s(ROOT_ID), vec![]).is_none());

    let mut changed = log.oplog.commits();
    changed[1].operation = Operation::CreateWorkbench { nonce: s("wb-2") };
    assert!(OpLog::restore(changed).is_none());

    let mut moved = log.oplog.commits();
    moved.swap(1, 2);
    assert!(OpLog::restore(moved).is_none());

    let mut orphaned = log.oplog.commits();
    orphaned.remove(1);
    assert!(OpLog::restore(orphaned).is_none());

    let mut renamed = log.oplog.commits();
    renamed[2].id = s(WORKBENCH_ID);
    assert!(OpLog::restore(renamed).is_none());

    let mut rehashed = log.oplog.commits();
    rehashed[2].content_hash = s(ROOT_HASH);
    assert!(OpLog::restore(rehashed).is_none());
}

#[test]
fn a_log_with_a_short_identity_is_not_printable() {
    let mut log = EvolutionLog::new();
    assert!(log.oplog.is_printable());
    log.append(Operation::SetWorkbenchName { workbench_id: s("short"), name: s("n") });
    assert!(!log.oplog.is_printable());
}
