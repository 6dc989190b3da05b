use airline::assets::{
    assets_module, build_command, build_report, has_suffix, push_accessor, stem_of, AssetFile,
};
use airline::cli::{command_of, Command};
use airline::demo::{LoginData, Resource};
use airline::server::{JsonObject, ToJson};

fn args(words: &[&str]) -> Vec<String> {
    words.iter().map(|w| w.to_string()).collect()
}

#[test]
fn module_for_development() {
    let files = vec![
        AssetFile { file_name: "index.html".to_string(), contents: b"<p>".to_vec() },
        AssetFile { file_name: "Logo.min.PNG".to_string(), contents: vec![] },
    ];
    let expected = "use std::fs::read;\n\
pub struct Assets;\nimpl Assets {\n\
\tpub fn index() -> Vec<u8> {\n\t\treturn read(\"assets/index.html\").unwrap();\n\t}\n\n\
\tpub fn logo() -> Vec<u8> {\n\t\treturn read(\"assets/Logo.min.PNG\").unwrap();\n\t}\n\n\
}";
    assert_eq!(assets_module(&files, "assets", "/", true), expected);
    assert_eq!(assets_module(&files, "assets/", "/", true), expected);
}

#[test]
fn module_for_release() {
    let files = vec![AssetFile { file_name: "a.txt".to_string(), contents: vec![0, 7, 255] }];
    let expected = "pub struct Assets;\nimpl Assets {\n\
\tconst K_A:&'static [u8] = &[0,\n\t\t7,\n\t\t255,\n\t\t];\n\n\
\tpub fn a() -> Vec<u8> {\n\t\treturn Assets::K_A.to_vec();\n\t}\n\n\
}";
    assert_eq!(assets_module(&files, "ignored", "\\", false), expected);
}

#[test]
fn module_without_files() {
    assert_eq!(assets_module(&vec![], "d", "/", false), "pub struct Assets;\nimpl Assets {\n}");
    assert_eq!(
        assets_module(&vec![], "d", "/", true),
        "use std::fs::read;\npub struct Assets;\nimpl Assets {\n}"
    );
}

#[test]
fn one_accessor() {
    let mut out = "x".to_string();
    push_accessor(&mut out, "C", "f", "dir\\", "F.bin", &[1], true);
    assert_eq!(out, "x\tpub fn f() -> Vec<u8> {\n\t\treturn read(\"dir\\F.bin\").unwrap();\n\t}\n\n");
    let mut out = String::new();
    push_accessor(&mut out, "C", "f", "dir\\", "F.bin", &[10, 200], false);
    assert_eq!(
        out,
        "\tconst K_C:&'static [u8] = &[10,\n\t\t200,\n\t\t];\n\n\tpub fn f() -> Vec<u8> {\n\t\treturn Assets::K_C.to_vec();\n\t}\n\n"
    );
}

#[test]
fn stems_and_suffixes() {
    assert_eq!(stem_of("index.html"), "index");
    assert_eq!(stem_of("a.b.c"), "a");
    assert_eq!(stem_of("plain"), "plain");
    assert_eq!(stem_of(".hidden"), "");
    assert_eq!(stem_of(""), "");
    assert!(has_suffix("assets/", "/"));
    assert!(!has_suffix("assets", "/"));
    assert!(has_suffix("assets", ""));
    assert!(has_suffix("", ""));
    assert!(!has_suffix("", "/"));
    assert!(has_suffix("a\\", "\\"));
    assert!(!has_suffix("/a", "/"));
    assert!(has_suffix("abc", "abc"));
    assert!(!has_suffix("bc", "abc"));
}

#[test]
fn build_commands() {
    assert_eq!(build_command(true), "cargo build");
    assert_eq!(build_command(false), "cargo build --release");
}

#[test]
fn report_keeps_warnings_and_errors() {
    let printed = "   Compiling x v0.1.0\nwarning: unused variable\n  --> src/x.rs:1:1\r\nerror: mismatched types\r\n\nerror[E0308]: no\n warning: indented\nwarning:\nerror: last";
    assert_eq!(
        build_report(printed),
        "warning: unused variable\nerror: mismatched types\nwarning:\nerror: last"
    );
    assert_eq!(build_report(""), "");
    assert_eq!(build_report("Finished\n"), "");
    assert_eq!(build_report("error: one\n"), "error: one");
    assert_eq!(build_report("error: one\r"), "error: one\r");
    assert_eq!(build_report("warning"), "");
    assert_eq!(build_report("\n\nwarning: w"), "warning: w");
}

#[test]
fn commands() {
    assert!(matches!(command_of(&args(&[])), Command::Welcome));
    assert!(matches!(command_of(&args(&["airline"])), Command::Welcome));
    assert!(matches!(command_of(&args(&["airline", "demo"])), Command::Demo));
    assert!(matches!(command_of(&args(&["airline", "demo", "x"])), Command::Demo));
    assert!(matches!(command_of(&args(&["airline", "compile"])), Command::Unknown));
    assert!(matches!(command_of(&args(&["airline", "serve"])), Command::Unknown));
    match command_of(&args(&["airline", "compile", "assets"])) {
        Command::Compile { assets_dir, release } => {
            assert_eq!(assets_dir, "assets");
            assert!(!release);
        }
        _ => panic!("compile expected"),
    }
    match command_of(&args(&["airline", "compile", "assets", "--release"])) {
        Command::Compile { assets_dir, release } => {
            assert_eq!(assets_dir, "assets");
            assert!(release);
        }
        _ => panic!("compile expected"),
    }
    match command_of(&args(&["airline", "compile", "assets", "--debug"])) {
        Command::Compile { release, .. } => assert!(!release),
        _ => panic!("compile expected"),
    }
}

#[test]
fn records_are_written_in_the_order_of_their_fields() {
    let r = Resource { id: "r\"1".to_string(), friendly_name: "First\n".to_string() };
    assert_eq!(r.to_json(), "{\"id\":\"r\\\"1\",\"friendly_name\":\"First\\n\"}");
    let l = LoginData {
        username: "u".to_string(),
        password: "p\\w".to_string(),
        resources: vec![
            Resource { id: "a".to_string(), friendly_name: "A".to_string() },
            Resource { id: "b".to_string(), friendly_name: "B".to_string() },
        ],
        is_superuser: true,
    };
    let text = l.to_json();
    assert_eq!(
        text,
        "{\"username\":\"u\",\"password\":\"p\\\\w\",\"resources\":[{\"id\":\"a\",\"friendly_name\":\"A\"},{\"id\":\"b\",\"friendly_name\":\"B\"}],\"is_superuser\":true}"
    );
    let back = JsonObject::from_string(text).unwrap();
    assert_eq!(back.string("username"), Some("u".to_string()));
    assert_eq!(back.string("password"), Some("p\\w".to_string()));
    assert_eq!(back.bool("is_superuser"), Some(true));
    let resources = back.array("resources").unwrap();
    assert_eq!(resources.len(), 2);
    assert_eq!(
        resources.get(1).unwrap().object().unwrap().string("friendly_name"),
        Some("B".to_string())
    );
    let empty = LoginData {
        username: String::new(),
        password: String::new(),
        resources: vec![],
        is_superuser: false,
    };
    assert_eq!(
        empty.to_json(),
        "{\"username\":\"\",\"password\":\"\",\"resources\":[],\"is_superuser\":false}"
    );
}
