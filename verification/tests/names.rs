use gmanim_editor::names::{ctrl_socket_name, preview_shm_id};
use gmanim_editor::scripts::{available_scripts, initial_script, is_script_name};
use gmanim_editor::text::decimal_text;

fn texts(names: &[&str]) -> Vec<String> {
    names.iter().map(|name| name.to_string()).collect()
}

#[test]
fn numbers_are_written_in_decimal() {
    assert_eq!(decimal_text(0), "0");
    assert_eq!(decimal_text(10), "10");
    assert_eq!(decimal_text(9_876_543_210), "9876543210");
    assert_eq!(decimal_text(u128::MAX), format!("{}", u128::MAX));
}

#[test]
fn sockets_are_named_by_process_and_moment() {
    assert_eq!(ctrl_socket_name(false, 42, 1700), "/tmp/gmanim_ctrl_42_1700");
    assert_eq!(ctrl_socket_name(true, 42, 1700), r"\\.\pipe\gmanim_ctrl_42_1700");
}

#[test]
fn shared_memory_is_named_by_process_run_and_moment() {
    assert_eq!(preview_shm_id(42, 3, 1700), "gmanim_preview_42_3_1700");
    assert_ne!(preview_shm_id(4, 23, 1700), preview_shm_id(42, 3, 1700));
    assert_ne!(preview_shm_id(1, 2, 3), preview_shm_id(1, 2, 4));
}

#[test]
fn scripts_are_told_by_their_extension() {
    for name in ["a.py", "main.py", "..py", "a.b.py", "a py.py", "é.py"] {
        assert!(is_script_name(name), "{name}");
        assert!(std::path::Path::new(name).extension().is_some_and(|ext| ext == "py"));
    }
    for name in ["", "py", ".py", "a.pyc", "a.PY", "apy", "a.py.txt", "main"] {
        assert!(!is_script_name(name), "{name}");
        assert!(!std::path::Path::new(name).extension().is_some_and(|ext| ext == "py"));
    }
}

#[test]
fn scripts_are_listed_in_order() {
    let names = texts(&["b.py", "notes.txt", "a.py", "Z.py", "é.py", "aa.py", "b.py", ".venv"]);
    assert_eq!(
        available_scripts(&names),
        texts(&["Z.py", "a.py", "aa.py", "b.py", "b.py", "é.py"])
    );
    assert_eq!(available_scripts(&Vec::new()), Vec::<String>::new());
}

#[test]
fn the_main_script_is_opened_first() {
    assert_eq!(initial_script(&texts(&["a.py", "main.py"])), "main.py");
    assert_eq!(initial_script(&texts(&["b.py", "c.py"])), "b.py");
    assert_eq!(initial_script(&Vec::new()), "main.py");
}
