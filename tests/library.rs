use gnome_workspace_shortcuts::keysym::KeysymTable;
use gnome_workspace_shortcuts::settings::{GSettings, MyApp, EMPTY_KEYBINDING, WORKSPACE_COUNT};
use gnome_workspace_shortcuts::shortcuts::{
    binding_value_exec, detect_modifier, first_key_exec, get_vec, stored_keysym_exec, Modifier,
};
use gnome_workspace_shortcuts::text::{
    chars_of, contains_exec, decimal_exec, parse_usize_exec, remove_all_exec,
    remove_quotes_and_brackets, split_lines, split_words, string_of, trim_exec,
};

const TABLE: &str = "exclam      0x0021 !\n\
                     a           0x0061 a\n\
                     one         0x0031 1\n\
                     short line\n\
                     \n\
                     plus        0x002b +\n";

fn cs(s: &str) -> Vec<char> {
    s.chars().collect()
}

fn st(v: &[char]) -> String {
    v.iter().collect()
}

#[test]
fn modifier_new_keeps_both_fields() {
    let m = Modifier::new("ALT", "<Alt>");
    assert_eq!(m.name, "ALT");
    assert_eq!(m.gsettings_value, "<Alt>");
}

#[test]
fn modifier_list_in_order() {
    let v = get_vec();
    let names: Vec<&str> = v.iter().map(|m| m.name.as_str()).collect();
    let values: Vec<&str> = v.iter().map(|m| m.gsettings_value.as_str()).collect();
    assert_eq!(names, vec!["NONE", "ALT", "CTRL", "SUPER", "SHIFT", "SHIFT+SUPER"]);
    assert_eq!(values, vec!["", "<Alt>", "<Ctrl>", "<Super>", "<Shift>", "<Shift><Super>"]);
}

#[test]
fn chars_and_strings_round_trip() {
    assert_eq!(chars_of("aé b"), vec!['a', 'é', ' ', 'b']);
    assert_eq!(string_of(&vec!['x', 'ü']), "xü");
    assert_eq!(string_of(&vec![]), "");
}

#[test]
fn remove_all_matches_from_the_left() {
    assert_eq!(st(&remove_all_exec(&cs("<Alt><Alt>x"), &cs("<Alt>"))), "x");
    assert_eq!(st(&remove_all_exec(&cs("aaa"), &cs("aa"))), "a");
    assert_eq!(st(&remove_all_exec(&cs("abc"), &cs(""))), "abc");
    assert_eq!(st(&remove_all_exec(&cs(""), &cs("a"))), "");
}

#[test]
fn quotes_and_brackets_are_dropped() {
    assert_eq!(st(&remove_quotes_and_brackets(&cs("['<Super>1']"))), "<Super>1");
}

#[test]
fn trim_both_ends() {
    assert_eq!(st(&trim_exec(&cs(" \t a b \n"))), "a b");
    assert_eq!(st(&trim_exec(&cs("   "))), "");
    assert_eq!(st(&trim_exec(&cs("\u{3000}x\u{a0}"))), "x");
}

#[test]
fn contains_finds_substrings() {
    assert!(contains_exec(&cs("['<Shift><Super>1']"), &cs("<Super>")));
    assert!(!contains_exec(&cs("['<Super>1']"), &cs("<Shift>")));
    assert!(contains_exec(&cs("abc"), &cs("")));
    assert!(!contains_exec(&cs(""), &cs("a")));
}

#[test]
fn splitting_lines_and_words() {
    let ls = split_lines(&cs("a b\n\nc\n"));
    let ls: Vec<String> = ls.iter().map(|l| st(l)).collect();
    assert_eq!(ls, vec!["a b", "", "c", ""]);
    let ws = split_words(&cs("  one\ttwo  three\r\n"));
    let ws: Vec<String> = ws.iter().map(|w| st(w)).collect();
    assert_eq!(ws, vec!["one", "two", "three"]);
    assert!(split_words(&cs(" \t ")).is_empty());
}

#[test]
fn decimal_writing() {
    assert_eq!(st(&decimal_exec(0)), "0");
    assert_eq!(st(&decimal_exec(10)), "10");
    assert_eq!(st(&decimal_exec(usize::MAX)), usize::MAX.to_string());
}

#[test]
fn decimal_reading() {
    assert_eq!(parse_usize_exec(&cs("42")), Some(42));
    assert_eq!(parse_usize_exec(&cs("+7")), Some(7));
    assert_eq!(parse_usize_exec(&cs("007")), Some(7));
    assert_eq!(parse_usize_exec(&cs("")), None);
    assert_eq!(parse_usize_exec(&cs("+")), None);
    assert_eq!(parse_usize_exec(&cs("-1")), None);
    assert_eq!(parse_usize_exec(&cs("4 ")), None);
    assert_eq!(parse_usize_exec(&cs(&usize::MAX.to_string())), Some(usize::MAX));
    let over = format!("{}0", usize::MAX);
    assert_eq!(parse_usize_exec(&cs(&over)), None);
}

#[test]
fn keysym_table_lookups() {
    let mut t = KeysymTable::new();
    t.add_text(TABLE);
    assert_eq!(t.key_of(&cs("exclam")), Some(cs("!")));
    assert_eq!(t.keysym_of(&cs("!")), Some(cs("exclam")));
    assert_eq!(t.keysym_of(&cs("+")), Some(cs("plus")));
    assert_eq!(t.key_of(&cs("short")), None);
    assert_eq!(t.keysym_of(&cs("line")), None);
    assert_eq!(t.key_to_keysym.len(), 4);
}

#[test]
fn keysym_table_later_entry_wins() {
    let mut t = KeysymTable::new();
    t.add_text("exclam 0x21 !\nbang 0x21 !\n");
    assert_eq!(t.keysym_of(&cs("!")), Some(cs("bang")));
    assert_eq!(t.key_of(&cs("exclam")), Some(cs("!")));
}

#[test]
fn modifier_detection_prefers_longest() {
    let ms = get_vec();
    assert_eq!(detect_modifier(&ms, &cs("['<Shift><Super>1']")), Some(5));
    assert_eq!(detect_modifier(&ms, &cs("['<Super>1']")), Some(3));
    assert_eq!(detect_modifier(&ms, &cs("['<Ctrl><Alt>x']")), Some(2));
    assert_eq!(detect_modifier(&ms, &cs("['a']")), None);
    assert_eq!(detect_modifier(&ms, &cs("@as []")), None);
}

#[test]
fn stored_keysym_strips_everything_but_the_key() {
    assert_eq!(st(&stored_keysym_exec(&cs("['<Super>exclam']\n"), &cs("<Super>"))), "exclam");
    assert_eq!(st(&stored_keysym_exec(&cs("@as []\n"), &cs(""))), "");
    assert_eq!(st(&stored_keysym_exec(&cs("['1']"), &cs(""))), "1");
}

#[test]
fn binding_value_format() {
    assert_eq!(binding_value_exec(&"<Alt>".to_string(), &cs("exclam")), "['<Alt>exclam']");
    assert_eq!(binding_value_exec(&String::new(), &cs("1")), "['1']");
}

#[test]
fn first_key_keeps_one_character() {
    assert_eq!(first_key_exec(&"ab".to_string()), "a");
    assert_eq!(first_key_exec(&"é".to_string()), "é");
    assert_eq!(first_key_exec(&"éx".to_string()), "é");
    assert_eq!(first_key_exec(&String::new()), "");
}

#[test]
fn new_app_has_twenty_fresh_slots() {
    let app = MyApp::new(TABLE);
    assert_eq!(app.workspace_keybinding_map.len(), 2 * WORKSPACE_COUNT);
    assert_eq!(app.num_of_workspaces, "4");
    let first = &app.workspace_keybinding_map[0];
    assert_eq!(first.gsettings_key, "switch-to-workspace-1");
    assert_eq!(first.label, "Switch to workspace 1");
    assert_eq!(first.modifier, "NONE");
    assert_eq!(first.modifier_index, 0);
    let tenth = &app.workspace_keybinding_map[9];
    assert_eq!(tenth.gsettings_key, "switch-to-workspace-10");
    let move1 = &app.workspace_keybinding_map[10];
    assert_eq!(move1.gsettings_key, "move-to-workspace-1");
    assert_eq!(move1.label, "Move window to workspace 1");
    let last = &app.workspace_keybinding_map[19];
    assert_eq!(last.gsettings_key, "move-to-workspace-10");
    assert_eq!(last.label, "Move window to workspace 10");
}

#[test]
fn reading_a_stored_value() {
    let mut app = MyApp::new(TABLE);
    app.get_gsettings_value_from_config(0, "['<Super>exclam']\n".to_string());
    let b = &app.workspace_keybinding_map[0];
    assert_eq!(b.gsettings_value, "['<Super>exclam']\n");
    assert_eq!(b.modifier_index, 3);
    assert_eq!(b.keybinding, "!");
    app.get_gsettings_value_from_config(0, "['<Shift><Super>q']\n".to_string());
    let b = &app.workspace_keybinding_map[0];
    assert_eq!(b.modifier_index, 5);
    assert_eq!(b.keybinding, "q");
}

#[test]
fn reading_a_value_without_modifier_keeps_the_previous_one() {
    let mut app = MyApp::new(TABLE);
    app.get_gsettings_value_from_config(3, "['<Alt>a']".to_string());
    assert_eq!(app.workspace_keybinding_map[3].modifier_index, 1);
    app.get_gsettings_value_from_config(3, "@as []".to_string());
    assert_eq!(app.workspace_keybinding_map[3].modifier_index, 1);
    assert_eq!(app.workspace_keybinding_map[3].keybinding, "");
}

#[test]
fn reading_all_stored_values() {
    let mut app = MyApp::new(TABLE);
    let values: Vec<String> =
        (0..2 * WORKSPACE_COUNT).map(|k| format!("['<Ctrl>{}']", k % 10)).collect();
    app.get_gsettings_values_from_config(values);
    for k in 0..2 * WORKSPACE_COUNT {
        let b = &app.workspace_keybinding_map[k];
        assert_eq!(b.modifier_index, 2);
        assert_eq!(b.keybinding, (k % 10).to_string());
    }
}

#[test]
fn editing_a_keybinding() {
    let mut app = MyApp::new(TABLE);
    app.select_modifier(2, 3);
    assert_eq!(app.workspace_keybinding_map[2].modifier, "SUPER");
    assert_eq!(app.workspace_keybinding_map[2].modifier_index, 3);
    app.edit_keybinding(2, "!x".to_string());
    assert_eq!(app.workspace_keybinding_map[2].keybinding, "!");
    assert_eq!(app.workspace_keybinding_map[2].converted_keybinding, "['<Super>exclam']");
    app.edit_keybinding(2, "z".to_string());
    assert_eq!(app.workspace_keybinding_map[2].converted_keybinding, "['<Super>z']");
    app.select_modifier(2, 0);
    app.edit_keybinding(2, "1".to_string());
    assert_eq!(app.workspace_keybinding_map[2].converted_keybinding, "['one']");
}

#[test]
fn requested_number_of_workspaces() {
    let mut app = MyApp::default();
    assert_eq!(app.requested_number_of_workspaces(), Some(4));
    app.num_of_workspaces = "x".to_string();
    assert_eq!(app.requested_number_of_workspaces(), None);
}

#[test]
fn settings_commands() {
    assert_eq!(
        GSettings::set_wm_keybinding("switch-to-workspace-1", "['<Super>1']"),
        vec!["set", "org.gnome.desktop.wm.keybindings", "switch-to-workspace-1", "['<Super>1']"]
    );
    assert_eq!(
        GSettings::get_wm_keybinding("move-to-workspace-2"),
        vec!["get", "org.gnome.desktop.wm.keybindings", "move-to-workspace-2"]
    );
    assert_eq!(
        GSettings::set_number_of_workspaces(6),
        vec!["set", "org.gnome.desktop.wm.preferences", "num-workspaces", "6"]
    );
    assert_eq!(
        GSettings::get_number_of_workspaces(),
        vec!["get", "org.gnome.desktop.wm.preferences", "num-workspaces"]
    );
}

#[test]
fn disabling_application_shortcuts() {
    let cmds = GSettings::disable_switch_to_application_shortcuts();
    assert_eq!(cmds.len(), 9);
    for (i, c) in cmds.iter().enumerate() {
        let key = format!("switch-to-application-{}", i + 1);
        assert_eq!(c, &vec!["set", "org.gnome.shell.keybindings", key.as_str(), EMPTY_KEYBINDING]);
    }
    assert_eq!(EMPTY_KEYBINDING, "[\"\"]");
}

#[test]
fn number_of_workspaces_output() {
    assert_eq!(GSettings::number_of_workspaces_from_output("4\n"), Some(4));
    assert_eq!(GSettings::number_of_workspaces_from_output("  12 "), Some(12));
    assert_eq!(GSettings::number_of_workspaces_from_output("uint32 4\n"), None);
    assert_eq!(GSettings::number_of_workspaces_from_output(""), None);
}

#[test]
fn built_value_reads_back_as_its_keysym() {
    for m in ["", "<Alt>", "<Shift><Super>"] {
        for k in ["exclam", "1", "", "Page Up"] {
            let v = binding_value_exec(&m.to_string(), &cs(k));
            assert_eq!(st(&stored_keysym_exec(&cs(&v), &cs(m))), k);
        }
    }
}
