use unpacker::error::MissingError;
use unpacker::error::UnpackerError;
use unpacker::ins::Cursor;
use unpacker::ins::Ins;
use unpacker::order::scan_order;
use unpacker::store::build_store;
use unpacker::store::strip_prefix_vec;
use unpacker::store::write_ordered;
use unpacker::store::BinaryTag;
use unpacker::store::SymbolEntry;
use unpacker::string_finder::StringFinder;
use unpacker::table::CharTable;
use unpacker::unpacker::AbcModel;
use unpacker::unpacker::HelperMethod;
use unpacker::unpacker::Unpacker;

/// The identifier under which the helper method for keymap slot `i` is
/// registered in the tests' models.
fn id_of(keymap: &[u8], c: u8) -> u32 {
    100 + keymap.iter().position(|&b| b == c).unwrap() as u32
}

/// One helper method per keymap slot: method 100+i returns keymap[i].
fn helper_methods(keymap: &[u8]) -> Vec<HelperMethod> {
    (0..keymap.len())
        .map(|i| HelperMethod {
            name: 100 + i as u32,
            need_rest: true,
            max_stack: 2,
            code: vec![Ins::Other, Ins::PushByte(i as u8), Ins::Other],
        })
        .collect()
}

/// The idiom occurrences that spell `text`, joined by "add" instructions.
fn spell(keymap: &[u8], text: &[u8], join_with_add: bool) -> Vec<Ins> {
    let mut out = Vec::new();
    for (k, &c) in text.iter().enumerate() {
        if join_with_add && k > 0 {
            out.push(Ins::Add);
        }
        out.push(Ins::GetLocal0);
        out.push(Ins::CallProperty(id_of(keymap, c)));
    }
    out
}

fn model_with_iinit(keymap: &[u8], iinit: Vec<Ins>) -> AbcModel {
    AbcModel {
        strings: vec![keymap.to_vec()],
        cinit: vec![Ins::Other, Ins::PushString(0), Ins::Other],
        iinit,
        methods: helper_methods(keymap),
    }
}

fn constructor(keymap: &[u8], strings: &[&[u8]]) -> Vec<Ins> {
    let mut iinit = vec![Ins::Other, Ins::ConstructSuper];
    for s in strings {
        iinit.extend(spell(keymap, s, true));
        iinit.push(Ins::Other);
    }
    iinit
}

#[test]
fn keymap_resolves_from_static_initializer() {
    let mut unp = Unpacker::new(model_with_iinit(b"abcdef", vec![]), vec![], vec![]);
    unp.resolve_keymap();
    assert_eq!(unp.keymap, Some(b"abcdef".to_vec()));
}

#[test]
fn keymap_missing_without_push_string() {
    let mut unp = Unpacker::new(
        AbcModel {
            strings: vec![b"abcdef".to_vec()],
            cinit: vec![Ins::Other, Ins::Add],
            iinit: vec![],
            methods: vec![],
        },
        vec![],
        vec![],
    );
    unp.resolve_keymap();
    assert_eq!(unp.keymap, None);
    let r = unp.resolve_methods();
    assert!(matches!(
        r,
        Err(UnpackerError::Missing(MissingError::MissingKeymap))
    ));
}

#[test]
fn helper_method_maps_to_keymap_character() {
    // keymap "abcdef"; helper method 7 decodes the byte literal 2 -> 'c'
    let mut unp = Unpacker::new(
        AbcModel {
            strings: vec![b"abcdef".to_vec()],
            cinit: vec![Ins::PushString(0)],
            iinit: vec![],
            methods: vec![HelperMethod {
                name: 7,
                need_rest: true,
                max_stack: 2,
                code: vec![Ins::Other, Ins::PushByte(2)],
            }],
        },
        vec![],
        vec![],
    );
    unp.resolve_keymap();
    unp.resolve_methods().unwrap();
    assert_eq!(unp.methods.get(7), Some(b'c'));
}

#[test]
fn helper_method_index_out_of_range_fails() {
    let mut unp = Unpacker::new(
        AbcModel {
            strings: vec![b"abcdef".to_vec()],
            cinit: vec![Ins::PushString(0)],
            iinit: vec![],
            methods: vec![HelperMethod {
                name: 7,
                need_rest: true,
                max_stack: 2,
                code: vec![Ins::PushByte(9)],
            }],
        },
        vec![],
        vec![],
    );
    unp.resolve_keymap();
    let r = unp.resolve_methods();
    assert!(matches!(r, Err(UnpackerError::KeymapIndexError(9))));
}

#[test]
fn non_qualifying_methods_are_ignored() {
    let mut unp = Unpacker::new(
        AbcModel {
            strings: vec![b"abcdef".to_vec()],
            cinit: vec![Ins::PushString(0)],
            iinit: vec![],
            methods: vec![
                HelperMethod {
                    name: 8,
                    need_rest: false,
                    max_stack: 2,
                    code: vec![Ins::PushByte(0)],
                },
                HelperMethod {
                    name: 9,
                    need_rest: true,
                    max_stack: 3,
                    code: vec![Ins::PushByte(1)],
                },
            ],
        },
        vec![],
        vec![],
    );
    unp.resolve_keymap();
    unp.resolve_methods().unwrap();
    assert_eq!(unp.methods.get(8), None);
    assert_eq!(unp.methods.get(9), None);
}

#[test]
fn match_single_character_call() {
    // an idiom call to method 7 decodes as 'c'; matching "c" succeeds
    let mut table = CharTable::new();
    table.insert(7, b'c');
    let cur = Cursor::new(vec![Ins::GetLocal0, Ins::CallProperty(7)]);
    let mut finder = StringFinder::new(cur, &table);
    assert!(finder.match_target(&b"c".to_vec()));
}

#[test]
fn match_failure_skips_whole_string() {
    // the decoy "xxx" fails on its first character; the matcher must end up
    // past the whole decoy, so the next search finds the next string
    let keymap = b"writeBysmagx";
    let mut table = CharTable::new();
    for (i, &c) in keymap.iter().enumerate() {
        table.insert(100 + i as u32, c);
    }
    let mut code = spell(keymap, b"xxx", true);
    code.push(Ins::Other);
    code.extend(spell(keymap, b"wr", true));
    let n = code.len();
    let cur = Cursor::new(code);
    let mut finder = StringFinder::new(cur, &table);
    assert!(!finder.match_target(&b"wr".to_vec()));
    // the cursor sits right after the decoy's last idiom occurrence
    assert_eq!(finder.cur.pos, 8);
    assert!(finder.next_string());
    assert!(finder.match_target(&b"wr".to_vec()));
    assert_eq!(finder.cur.pos, n);
}

#[test]
fn match_fails_on_unmapped_identifier() {
    // unlike build, the matcher treats an unmapped identifier as a mismatch
    let table = CharTable::new();
    let cur = Cursor::new(vec![Ins::GetLocal0, Ins::CallProperty(7)]);
    let mut finder = StringFinder::new(cur, &table);
    assert!(!finder.match_target(&b"c".to_vec()));
}

#[test]
fn build_skips_unknown_identifiers() {
    let mut table = CharTable::new();
    table.insert(1, b'h');
    table.insert(3, b'i');
    let cur = Cursor::new(vec![
        Ins::GetLocal0,
        Ins::CallProperty(1),
        Ins::Add,
        Ins::GetLocal0,
        Ins::CallProperty(2),
        Ins::Add,
        Ins::GetLocal0,
        Ins::CallProperty(3),
    ]);
    let mut finder = StringFinder::new(cur, &table);
    let s = finder.build();
    assert_eq!(s, b"hi".to_vec());
}

#[test]
fn order_writebytes_then_name() {
    // "writeBytes" followed immediately by "image" resolves to ["image"]
    let keymap = b"writeBysmag";
    let mut iinit = vec![Ins::Other, Ins::ConstructSuper];
    iinit.extend(spell(keymap, b"writeBytes", true));
    iinit.extend(spell(keymap, b"image", true));
    iinit.push(Ins::Other);
    let mut unp = Unpacker::new(model_with_iinit(keymap, iinit), vec![], vec![]);
    unp.resolve_order().unwrap();
    assert_eq!(unp.order, vec![b"image".to_vec()]);
}

#[test]
fn order_skips_non_marker_strings() {
    let keymap = b"writeBysmagx";
    let iinit = constructor(keymap, &[b"xx", b"writeBytes", b"a", b"gag"]);
    let mut unp = Unpacker::new(model_with_iinit(keymap, iinit), vec![], vec![]);
    unp.resolve_order().unwrap();
    assert_eq!(unp.order, vec![b"a".to_vec()]);
}

#[test]
fn order_preserves_duplicates_in_program_order() {
    let keymap = b"writeBysmag";
    let iinit = constructor(
        keymap,
        &[b"writeBytes", b"gear", b"writeBytes", b"mast", b"writeBytes", b"gear"],
    );
    let mut unp = Unpacker::new(model_with_iinit(keymap, iinit), vec![], vec![]);
    unp.resolve_order().unwrap();
    assert_eq!(
        unp.order,
        vec![b"gear".to_vec(), b"mast".to_vec(), b"gear".to_vec()]
    );
}

#[test]
fn order_is_deterministic_across_runs() {
    let keymap = b"writeBysmag";
    let build = || {
        let iinit = constructor(keymap, &[b"writeBytes", b"image", b"writeBytes", b"mast"]);
        let mut unp = Unpacker::new(model_with_iinit(keymap, iinit), vec![], vec![]);
        unp.resolve_order().unwrap();
        unp.order
    };
    assert_eq!(build(), build());
    assert_eq!(build(), vec![b"image".to_vec(), b"mast".to_vec()]);
}

#[test]
fn order_missing_super_fails() {
    let keymap = b"writeBysmag";
    let mut iinit = spell(keymap, b"writeBytes", true);
    iinit.extend(spell(keymap, b"image", true));
    let mut unp = Unpacker::new(model_with_iinit(keymap, iinit), vec![], vec![]);
    let r = unp.resolve_order();
    assert!(matches!(
        r,
        Err(UnpackerError::Missing(MissingError::MissingSuper))
    ));
    assert!(unp.order.is_empty());
}

#[test]
fn order_invalid_utf8_name_fails() {
    // a name decoding to the lone byte 0xFF is not valid UTF-8
    let keymap: &[u8] = &[119, 114, 105, 116, 101, 66, 121, 115, 0xFF];
    let mut iinit = vec![Ins::ConstructSuper];
    iinit.extend(spell(keymap, b"writeBytes", true));
    iinit.push(Ins::Other);
    iinit.extend(spell(keymap, &[0xFF], true));
    let mut unp = Unpacker::new(model_with_iinit(keymap, iinit), vec![], vec![]);
    let r = unp.resolve_order();
    assert!(matches!(r, Err(UnpackerError::Utf8Error)));
    // the failure hit the first name, so nothing was appended
    assert!(unp.order.is_empty());
}

#[test]
fn utf8_failure_keeps_names_resolved_before_it() {
    // names resolved before the invalid one stay in the order; the invalid
    // one is never appended
    let keymap: &[u8] = &[119, 114, 105, 116, 101, 66, 121, 115, 111, 107, 0xFF];
    let mut iinit = vec![Ins::ConstructSuper];
    iinit.extend(spell(keymap, b"writeBytes", true));
    iinit.push(Ins::Other);
    iinit.extend(spell(keymap, b"ok", true));
    iinit.push(Ins::Other);
    iinit.extend(spell(keymap, b"writeBytes", true));
    iinit.push(Ins::Other);
    iinit.extend(spell(keymap, &[0xFF], true));
    let mut unp = Unpacker::new(model_with_iinit(keymap, iinit), vec![], vec![]);
    let r = unp.resolve_order();
    assert!(matches!(r, Err(UnpackerError::Utf8Error)));
    assert_eq!(unp.order, vec![b"ok".to_vec()]);
}

#[test]
fn index_error_keeps_entries_registered_before_it() {
    // the entries registered before the failing method stay in the table
    let mut unp = Unpacker::new(
        AbcModel {
            strings: vec![b"abcdef".to_vec()],
            cinit: vec![Ins::PushString(0)],
            iinit: vec![],
            methods: vec![
                HelperMethod {
                    name: 7,
                    need_rest: true,
                    max_stack: 2,
                    code: vec![Ins::PushByte(2)],
                },
                HelperMethod {
                    name: 8,
                    need_rest: true,
                    max_stack: 2,
                    code: vec![Ins::PushByte(9)],
                },
            ],
        },
        vec![],
        vec![],
    );
    unp.resolve_keymap();
    let r = unp.resolve_methods();
    assert!(matches!(r, Err(UnpackerError::KeymapIndexError(9))));
    assert_eq!(unp.methods.get(7), Some(b'c'));
    assert_eq!(unp.methods.get(8), None);
}

#[test]
fn order_valid_utf8_name_passes() {
    // the same walk with a plain ASCII name goes through: the UTF-8 gate
    // really depends on the decoded bytes
    let keymap = b"writeBysmag";
    let iinit = constructor(keymap, &[b"writeBytes", b"gas"]);
    let mut unp = Unpacker::new(model_with_iinit(keymap, iinit), vec![], vec![]);
    assert!(unp.resolve_order().is_ok());
    assert_eq!(unp.order, vec![b"gas".to_vec()]);
}

#[test]
fn trailing_marker_yields_empty_name() {
    // a "writeBytes" with no string after it decodes the empty name
    let keymap = b"writeBysmag";
    let mut iinit = vec![Ins::ConstructSuper];
    iinit.extend(spell(keymap, b"writeBytes", true));
    let mut unp = Unpacker::new(model_with_iinit(keymap, iinit), vec![], vec![]);
    unp.resolve_order().unwrap();
    assert_eq!(unp.order, vec![Vec::<u8>::new()]);
}

#[test]
fn scan_order_directly() {
    let keymap = b"writeBysmag";
    let mut table = CharTable::new();
    for (i, &c) in keymap.iter().enumerate() {
        table.insert(100 + i as u32, c);
    }
    let iinit = constructor(keymap, &[b"writeBytes", b"image"]);
    let mut names = Vec::new();
    scan_order(&iinit, &table, &mut names).unwrap();
    assert_eq!(names, vec![b"image".to_vec()]);
}

#[test]
fn strip_prefix_takes_first_separator() {
    assert_eq!(
        strip_prefix_vec(&b"Class_background".to_vec()),
        Some(b"background".to_vec())
    );
    assert_eq!(strip_prefix_vec(&b"a_b_c".to_vec()), Some(b"b_c".to_vec()));
    assert_eq!(strip_prefix_vec(&b"nounderscore".to_vec()), None);
    assert_eq!(strip_prefix_vec(&b"trailing_".to_vec()), Some(Vec::new()));
}

#[test]
fn store_keys_strip_symbol_prefixes() {
    // symbols {1: "Class_background", 2: "Class_data1"} give the keys
    // {"background", "data1"}
    let tags = vec![
        BinaryTag { char_id: 1, data: vec![1, 2, 3] },
        BinaryTag { char_id: 2, data: vec![4, 5] },
        BinaryTag { char_id: 3, data: vec![9] },
    ];
    let symbols = vec![
        SymbolEntry { char_id: 1, name: b"Class_background".to_vec() },
        SymbolEntry { char_id: 2, name: b"Class_data1".to_vec() },
    ];
    let store = build_store(&tags, &symbols);
    assert_eq!(store.get(&b"background".to_vec()), Some(&vec![1, 2, 3]));
    assert_eq!(store.get(&b"data1".to_vec()), Some(&vec![4, 5]));
    assert_eq!(store.get(&b"Class_background".to_vec()), None);
}

#[test]
fn store_collision_last_write_wins() {
    let tags = vec![
        BinaryTag { char_id: 1, data: vec![1] },
        BinaryTag { char_id: 2, data: vec![2] },
    ];
    let symbols = vec![
        SymbolEntry { char_id: 1, name: b"A_same".to_vec() },
        SymbolEntry { char_id: 2, name: b"B_same".to_vec() },
    ];
    let store = build_store(&tags, &symbols);
    assert_eq!(store.get(&b"same".to_vec()), Some(&vec![2]));
}

#[test]
fn write_binaries_fails_closed() {
    // order ["background", "data1"] over a store holding only "background":
    // background's payload is written in full, then "data1" is reported
    let tags = vec![BinaryTag { char_id: 1, data: vec![7, 8, 9] }];
    let symbols = vec![SymbolEntry { char_id: 1, name: b"Class_background".to_vec() }];
    let store = build_store(&tags, &symbols);
    let order = vec![b"background".to_vec(), b"data1".to_vec()];
    let mut out = Vec::new();
    let missing = write_ordered(&order, &store, &mut out);
    assert_eq!(out, vec![7, 8, 9]);
    assert_eq!(missing, Some(b"data1".to_vec()));
}

#[test]
fn unpack_end_to_end() {
    let keymap = b"writeBysmag";
    let iinit = constructor(keymap, &[b"writeBytes", b"gear", b"writeBytes", b"mast"]);
    let tags = vec![
        BinaryTag { char_id: 10, data: vec![1, 1] },
        BinaryTag { char_id: 11, data: vec![2, 2, 2] },
    ];
    let symbols = vec![
        SymbolEntry { char_id: 10, name: b"C_gear".to_vec() },
        SymbolEntry { char_id: 11, name: b"C_mast".to_vec() },
    ];
    let mut unp = Unpacker::new(model_with_iinit(keymap, iinit), tags, symbols);
    let mut out = Vec::new();
    let missing = unp.unpack(&mut out).unwrap();
    assert_eq!(missing, None);
    assert_eq!(out, vec![1, 1, 2, 2, 2]);
    assert_eq!(unp.order, vec![b"gear".to_vec(), b"mast".to_vec()]);
}

#[test]
fn char_table_last_insert_wins() {
    let mut table = CharTable::new();
    table.insert(5, b'a');
    table.insert(5, b'b');
    assert_eq!(table.get(5), Some(b'b'));
    assert_eq!(table.get(6), None);
}
