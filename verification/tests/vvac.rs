use bebop::vvac::{add_missing_empty_modules, contains_bytes, empty_instantiation, empty_module_file, remove_empty_module_instantiations};

#[test]
fn empty_module_instantiations_are_dropped() {
    let source = b"module Top(\n  input clk\n);\n  SourceX sx ();\n  SourceXBar keep ();\n\tNullIntSource  n_0 ( ); \n  NullIntSource n ();\r\n  IntXbar_i0_o0 x (.a(b));\nendmodule\n";
    let (text, removed) = remove_empty_module_instantiations(source);
    assert_eq!(removed, 2);
    assert_eq!(
        String::from_utf8(text).unwrap(),
        "module Top(\n  input clk\n);\n  SourceXBar keep ();\n\tNullIntSource  n_0 ( ); \n  IntXbar_i0_o0 x (.a(b));\nendmodule"
    );
}

#[test]
fn untouched_sources_lose_only_their_final_newline() {
    let (text, removed) = remove_empty_module_instantiations(b"a\r\nb\n\nc");
    assert_eq!(removed, 0);
    assert_eq!(text, b"a\nb\n\nc".to_vec());
    let (text, removed) = remove_empty_module_instantiations(b"");
    assert_eq!((text, removed), (Vec::new(), 0));
}

#[test]
fn instantiation_lines_are_recognised_after_trimming() {
    assert!(empty_instantiation(b"   Queue1_SourceXRequest q ();  "));
    assert!(empty_instantiation(b"IntSyncCrossingSource_n1x1_Registered s();"));
    assert!(!empty_instantiation(b"SourceX();"));
    assert!(!empty_instantiation(b"SourceX s (.x(y));"));
}

#[test]
fn missing_empty_module_files_are_appended_to_the_filelist() {
    let filelist = b"./work_Top.sv\n./work_SourceX.sv";
    let present = vec![true, false, true, true, true];
    let (text, added) = add_missing_empty_modules(filelist, &present).unwrap();
    assert_eq!(added, 3);
    assert_eq!(
        String::from_utf8(text).unwrap(),
        "./work_Top.sv\n./work_SourceX.sv\n./work_DebugCustomXbar.sv\n./work_NullIntSource.sv\n./work_Queue1_SourceXRequest.sv\n"
    );
    assert!(add_missing_empty_modules(b"x\n", &vec![false; 5]).is_none());
    assert_eq!(empty_module_file(2), "work_NullIntSource.sv");
}

#[test]
fn substring_search() {
    assert!(contains_bytes(b"hello world", b"lo w"));
    assert!(contains_bytes(b"abc", b""));
    assert!(!contains_bytes(b"abc", b"abcd"));
    assert!(!contains_bytes(b"abc", b"bd"));
}

#[test]
fn unicode_whitespace_is_trimmed_before_recognition() {
    assert!(empty_instantiation("\u{a0}\u{2000}SourceX s ();\u{85}\u{3000}".as_bytes()));
    assert!(!empty_instantiation("SourceX\u{a0}s ();".as_bytes()));
}
