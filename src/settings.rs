use vstd::prelude::*;

use crate::keysym::{keysym_entries, pair_views, swapped, KeysymTable};
use crate::shortcuts::{
    binding_value, binding_value_exec, detect_modifier, first_key, first_key_exec, get_vec,
    modifier_chosen, modifier_present, shown_key, shown_key_exec, stored_key, stored_key_exec,
    stored_keysym, stored_keysym_exec, Modifier,
};
use crate::text::{chars_of, decimal, decimal_exec, parse_usize, parse_usize_exec, string_of, trim, trim_exec};

verus! {

/// The number of workspaces that have a switch and a move shortcut.
pub const WORKSPACE_COUNT: usize = 10;

/// The value that clears a keybinding in the settings store.
pub const EMPTY_KEYBINDING: &'static str = "[\"\"]";

/// One keybinding slot of the form.
pub struct WorkspaceKeybinding {
    pub modifier: String,
    pub modifier_index: usize,
    pub gsettings_key: String,
    pub gsettings_value: String,
    pub label: String,
    pub keybinding: String,
    pub converted_keybinding: String,
}

/// The settings key of slot `k`.
pub open spec fn slot_key(k: nat) -> Seq<char> {
    if k < 10 {
        "switch-to-workspace-"@ + decimal(k + 1)
    } else {
        "move-to-workspace-"@ + decimal((k - 10 + 1) as nat)
    }
}

/// The label of slot `k`.
pub open spec fn slot_label(k: nat) -> Seq<char> {
    if k < 10 {
        "Switch to workspace "@ + decimal(k + 1)
    } else {
        "Move window to workspace "@ + decimal((k - 10 + 1) as nat)
    }
}

/// Slot `k` as it stands before anything is read from the settings store.
pub open spec fn fresh_slot(b: WorkspaceKeybinding, k: nat) -> bool {
    &&& b.modifier@ == "NONE"@
    &&& b.modifier_index == 0
    &&& b.gsettings_key@ == slot_key(k)
    &&& b.gsettings_value@ == Seq::<char>::empty()
    &&& b.label@ == slot_label(k)
    &&& b.keybinding@ == Seq::<char>::empty()
    &&& b.converted_keybinding@ == Seq::<char>::empty()
}

/// Slot `nb` is slot `b` once the stored value `value` is read into it: the value
/// itself, the modifier found in it (the previous one where none is found) and the
/// key that it names, as shown to the user.
pub open spec fn slot_read(
    ms: Seq<Modifier>,
    t: KeysymTable,
    b: WorkspaceKeybinding,
    value: Seq<char>,
    nb: WorkspaceKeybinding,
) -> bool {
    &&& nb.gsettings_value@ == value
    &&& nb.modifier == b.modifier
    &&& nb.gsettings_key == b.gsettings_key
    &&& nb.label == b.label
    &&& nb.converted_keybinding == b.converted_keybinding
    &&& (modifier_chosen(ms, value, nb.modifier_index as int) || ((forall|j: int|
        !modifier_present(ms, value, j)) && nb.modifier_index == b.modifier_index))
    &&& nb.keybinding@ == shown_key(
        t,
        stored_keysym(value, ms[nb.modifier_index as int].gsettings_value@),
    )
}

/// The state of the form: the modifiers offered, the keybinding slots, the key
/// symbol tables and the workspace count as typed.
pub struct MyApp {
    pub modifier_vec: Vec<Modifier>,
    pub workspace_keybinding_map: Vec<WorkspaceKeybinding>,
    pub keysyms: KeysymTable,
    pub num_of_workspaces: String,
}

fn new_slot(prefix: &str, label_prefix: &str, n: usize) -> (r: WorkspaceKeybinding)
    ensures
        r.modifier@ == "NONE"@,
        r.modifier_index == 0,
        r.gsettings_key@ == prefix@ + decimal(n as nat),
        r.gsettings_value@ == Seq::<char>::empty(),
        r.label@ == label_prefix@ + decimal(n as nat),
        r.keybinding@ == Seq::<char>::empty(),
        r.converted_keybinding@ == Seq::<char>::empty(),
{
    let digits = decimal_exec(n);
    let mut key = chars_of(prefix);
    key.append(&mut digits.clone());
    let mut label = chars_of(label_prefix);
    label.append(&mut digits.clone());
    let r = WorkspaceKeybinding {
        modifier: "NONE".to_owned(),
        modifier_index: 0,
        gsettings_key: string_of(&key),
        gsettings_value: String::new(),
        label: string_of(&label),
        keybinding: String::new(),
        converted_keybinding: String::new(),
    };
    assert(r.gsettings_key@ =~= prefix@ + decimal(n as nat));
    assert(r.label@ =~= label_prefix@ + decimal(n as nat));
    r
}

impl Default for MyApp {
    fn default() -> (r: Self)
        ensures
            r.wf(),
            r.modifier_vec@.len() == 6,
            r.workspace_keybinding_map@.len() == 0,
            r.keysyms.key_map() == Map::<Seq<char>, Seq<char>>::empty(),
            r.keysyms.keysym_map() == Map::<Seq<char>, Seq<char>>::empty(),
            pair_views(r.keysyms.key_to_keysym@) == Seq::<(Seq<char>, Seq<char>)>::empty(),
            pair_views(r.keysyms.keysym_to_key@) == Seq::<(Seq<char>, Seq<char>)>::empty(),
            r.num_of_workspaces@ == "4"@,
    {
        MyApp {
            modifier_vec: get_vec(),
            workspace_keybinding_map: Vec::new(),
            keysyms: KeysymTable::new(),
            num_of_workspaces: "4".to_owned(),
        }
    }
}

impl MyApp {
    /// Every slot names a modifier of the list.
    pub open spec fn wf(&self) -> bool {
        forall|k: int|
            0 <= k < self.workspace_keybinding_map@.len()
                ==> (#[trigger] self.workspace_keybinding_map@[k]).modifier_index
                < self.modifier_vec@.len()
    }

    /// The form with its symbol tables read from `keysyms` and its slots in their
    /// first state; the values of the settings store are read into it afterwards.
    pub fn new(keysyms: &str) -> (r: Self)
        ensures
            r.wf(),
            r.modifier_vec@.len() == 6,
            r.workspace_keybinding_map@.len() == 2 * WORKSPACE_COUNT,
            forall|k: int|
                0 <= k < 2 * WORKSPACE_COUNT ==> fresh_slot(
                    #[trigger] r.workspace_keybinding_map@[k],
                    k as nat,
                ),
            pair_views(r.keysyms.keysym_to_key@) == keysym_entries(keysyms@),
            pair_views(r.keysyms.key_to_keysym@) == swapped(keysym_entries(keysyms@)),
            r.num_of_workspaces@ == "4"@,
    {
        let mut app = Self::default();
        app.init_keysyms(keysyms);
        app.gen_workspace_keybinding_map();
        assert(Seq::<(Seq<char>, Seq<char>)>::empty() + keysym_entries(keysyms@) =~= keysym_entries(
            keysyms@,
        ));
        assert(Seq::<(Seq<char>, Seq<char>)>::empty() + swapped(keysym_entries(keysyms@))
            =~= swapped(keysym_entries(keysyms@)));
        app
    }

    /// Adds the entries of a key symbol table's text to both lookup tables.
    pub fn init_keysyms(&mut self, keys: &str)
        ensures
            final(self).modifier_vec == old(self).modifier_vec,
            final(self).workspace_keybinding_map == old(self).workspace_keybinding_map,
            final(self).num_of_workspaces == old(self).num_of_workspaces,
            pair_views(final(self).keysyms.keysym_to_key@) == pair_views(
                old(self).keysyms.keysym_to_key@,
            ) + keysym_entries(keys@),
            pair_views(final(self).keysyms.key_to_keysym@) == pair_views(
                old(self).keysyms.key_to_keysym@,
            ) + swapped(keysym_entries(keys@)),
    {
        self.keysyms.add_text(keys);
    }

    /// Sets the slots to their first state: the switch shortcuts of workspaces
    /// 1 to 10, then the move shortcuts of the same workspaces.
    pub fn gen_workspace_keybinding_map(&mut self)
        ensures
            final(self).modifier_vec == old(self).modifier_vec,
            final(self).keysyms == old(self).keysyms,
            final(self).num_of_workspaces == old(self).num_of_workspaces,
            final(self).workspace_keybinding_map@.len() == 2 * WORKSPACE_COUNT,
            forall|k: int|
                0 <= k < 2 * WORKSPACE_COUNT ==> fresh_slot(
                    #[trigger] final(self).workspace_keybinding_map@[k],
                    k as nat,
                ),
            old(self).modifier_vec@.len() > 0 ==> final(self).wf(),
    {
        let mut slots: Vec<WorkspaceKeybinding> = Vec::new();
        let mut i: usize = 0;
        while i < WORKSPACE_COUNT
            invariant
                i <= WORKSPACE_COUNT,
                slots@.len() == i,
                forall|k: int| 0 <= k < i ==> fresh_slot(#[trigger] slots@[k], k as nat),
            decreases WORKSPACE_COUNT - i,
        {
            slots.push(new_slot("switch-to-workspace-", "Switch to workspace ", i + 1));
            i = i + 1;
        }
        let mut i: usize = 0;
        while i < WORKSPACE_COUNT
            invariant
                i <= WORKSPACE_COUNT,
                slots@.len() == WORKSPACE_COUNT + i,
                forall|k: int|
                    0 <= k < WORKSPACE_COUNT + i ==> fresh_slot(#[trigger] slots@[k], k as nat),
            decreases WORKSPACE_COUNT - i,
        {
            slots.push(new_slot("move-to-workspace-", "Move window to workspace ", i + 1));
            proof {
                let k = (WORKSPACE_COUNT + i) as nat;
                assert((k - 10 + 1) as nat == (i + 1) as nat);
            }
            i = i + 1;
        }
        self.workspace_keybinding_map = slots;
    }

    /// Reads the value that the settings store holds for slot `i`: the value itself,
    /// the modifier found in it (the previous one where none is found) and the key
    /// it names.
    pub fn get_gsettings_value_from_config(&mut self, i: usize, value: String)
        requires
            old(self).wf(),
            i < old(self).workspace_keybinding_map@.len(),
        ensures
            final(self).wf(),
            final(self).modifier_vec == old(self).modifier_vec,
            final(self).keysyms == old(self).keysyms,
            final(self).num_of_workspaces == old(self).num_of_workspaces,
            final(self).workspace_keybinding_map@.len() == old(self).workspace_keybinding_map@.len(),
            forall|k: int|
                0 <= k < old(self).workspace_keybinding_map@.len() && k != i ==> (
                #[trigger] final(self).workspace_keybinding_map@[k])
                    == old(self).workspace_keybinding_map@[k],
            slot_read(
                old(self).modifier_vec@,
                old(self).keysyms,
                old(self).workspace_keybinding_map@[i as int],
                value@,
                final(self).workspace_keybinding_map@[i as int],
            ),
    {
        let v = chars_of(value.as_str());
        let old_index = self.workspace_keybinding_map[i].modifier_index;
        let index = match detect_modifier(&self.modifier_vec, &v) {
            Some(j) => j,
            None => old_index,
        };
        let m = chars_of(self.modifier_vec[index].gsettings_value.as_str());
        let keysym = stored_keysym_exec(&v, &m);
        let key = shown_key_exec(&self.keysyms, &keysym);
        let b = &self.workspace_keybinding_map[i];
        let nb = WorkspaceKeybinding {
            modifier: b.modifier.clone(),
            modifier_index: index,
            gsettings_key: b.gsettings_key.clone(),
            gsettings_value: value,
            label: b.label.clone(),
            keybinding: string_of(&key),
            converted_keybinding: b.converted_keybinding.clone(),
        };
        proof {
            assert(nb.modifier@ =~= b.modifier@);
        }
        self.workspace_keybinding_map.set(i, nb);
    }
    /// Reads the stored value of every slot, `values[k]` for slot `k`.
    pub fn get_gsettings_values_from_config(&mut self, values: Vec<String>)
        requires
            old(self).wf(),
            values@.len() == old(self).workspace_keybinding_map@.len(),
        ensures
            final(self).wf(),
            final(self).modifier_vec == old(self).modifier_vec,
            final(self).keysyms == old(self).keysyms,
            final(self).num_of_workspaces == old(self).num_of_workspaces,
            final(self).workspace_keybinding_map@.len() == old(self).workspace_keybinding_map@.len(),
            forall|k: int|
                0 <= k < old(self).workspace_keybinding_map@.len() ==> slot_read(
                    old(self).modifier_vec@,
                    old(self).keysyms,
                    old(self).workspace_keybinding_map@[k],
                    values@[k]@,
                    #[trigger] final(self).workspace_keybinding_map@[k],
                ),
    {
        let ghost before = self.workspace_keybinding_map@;
        let mut values = values;
        let ghost vs = values@;
        let n = self.workspace_keybinding_map.len();
        let mut rest: Vec<String> = Vec::new();
        while values.len() > 0
            invariant
                values@ + rest@.reverse() == vs,
            decreases values@.len(),
        {
            let v = values.pop().unwrap();
            proof {
                assert(values@ + rest@.push(v).reverse() =~= vs);
            }
            rest.push(v);
        }
        assert(rest@.reverse() =~= vs);
        let mut k: usize = 0;
        while k < n
            invariant
                k <= n,
                n == before.len(),
                rest@.len() == n - k,
                forall|j: int| 0 <= j < n - k ==> rest@[j] == vs[n - 1 - j],
                self.wf(),
                self.modifier_vec == old(self).modifier_vec,
                self.keysyms == old(self).keysyms,
                self.num_of_workspaces == old(self).num_of_workspaces,
                self.workspace_keybinding_map@.len() == n,
                forall|j: int|
                    k <= j < n ==> #[trigger] self.workspace_keybinding_map@[j] == before[j],
                forall|j: int|
                    0 <= j < k ==> slot_read(
                        old(self).modifier_vec@,
                        old(self).keysyms,
                        before[j],
                        vs[j]@,
                        #[trigger] self.workspace_keybinding_map@[j],
                    ),
            decreases n - k,
        {
            let v = rest.pop().unwrap();
            assert(v == vs[k as int]);
            self.get_gsettings_value_from_config(k, v);
            k = k + 1;
        }
    }

    /// Picks modifier `i` of the list for slot `k`.
    pub fn select_modifier(&mut self, k: usize, i: usize)
        requires
            old(self).wf(),
            k < old(self).workspace_keybinding_map@.len(),
            i < old(self).modifier_vec@.len(),
        ensures
            final(self).wf(),
            final(self).modifier_vec == old(self).modifier_vec,
            final(self).keysyms == old(self).keysyms,
            final(self).num_of_workspaces == old(self).num_of_workspaces,
            final(self).workspace_keybinding_map@ == old(self).workspace_keybinding_map@.update(
                k as int,
                final(self).workspace_keybinding_map@[k as int],
            ),
            ({
                let b = old(self).workspace_keybinding_map@[k as int];
                let nb = final(self).workspace_keybinding_map@[k as int];
                &&& nb.modifier@ == old(self).modifier_vec@[i as int].name@
                &&& nb.modifier_index == i
                &&& nb.gsettings_key == b.gsettings_key
                &&& nb.gsettings_value == b.gsettings_value
                &&& nb.label == b.label
                &&& nb.keybinding == b.keybinding
                &&& nb.converted_keybinding == b.converted_keybinding
            }),
    {
        let b = &self.workspace_keybinding_map[k];
        let nb = WorkspaceKeybinding {
            modifier: self.modifier_vec[i].name.clone(),
            modifier_index: i,
            gsettings_key: b.gsettings_key.clone(),
            gsettings_value: b.gsettings_value.clone(),
            label: b.label.clone(),
            keybinding: b.keybinding.clone(),
            converted_keybinding: b.converted_keybinding.clone(),
        };
        self.workspace_keybinding_map.set(k, nb);
    }

    /// Takes what the user typed as the key of slot `k`: only its first character is
    /// kept, and the value to store is built from it and the slot's modifier.
    pub fn edit_keybinding(&mut self, k: usize, typed: String)
        requires
            old(self).wf(),
            k < old(self).workspace_keybinding_map@.len(),
        ensures
            final(self).wf(),
            final(self).modifier_vec == old(self).modifier_vec,
            final(self).keysyms == old(self).keysyms,
            final(self).num_of_workspaces == old(self).num_of_workspaces,
            final(self).workspace_keybinding_map@ == old(self).workspace_keybinding_map@.update(
                k as int,
                final(self).workspace_keybinding_map@[k as int],
            ),
            ({
                let b = old(self).workspace_keybinding_map@[k as int];
                let nb = final(self).workspace_keybinding_map@[k as int];
                let m = old(self).modifier_vec@[b.modifier_index as int].gsettings_value@;
                &&& nb.keybinding@ == first_key(typed@)
                &&& nb.converted_keybinding@ == binding_value(
                    m,
                    stored_key(old(self).keysyms, first_key(typed@)),
                )
                &&& nb.modifier == b.modifier
                &&& nb.modifier_index == b.modifier_index
                &&& nb.gsettings_key == b.gsettings_key
                &&& nb.gsettings_value == b.gsettings_value
                &&& nb.label == b.label
            }),
    {
        let key = first_key_exec(&typed);
        let key_chars = chars_of(key.as_str());
        let keysym = stored_key_exec(&self.keysyms, &key_chars);
        let b = &self.workspace_keybinding_map[k];
        let converted = binding_value_exec(
            &self.modifier_vec[b.modifier_index].gsettings_value,
            &keysym,
        );
        let nb = WorkspaceKeybinding {
            modifier: b.modifier.clone(),
            modifier_index: b.modifier_index,
            gsettings_key: b.gsettings_key.clone(),
            gsettings_value: b.gsettings_value.clone(),
            label: b.label.clone(),
            keybinding: key,
            converted_keybinding: converted,
        };
        self.workspace_keybinding_map.set(k, nb);
    }

    /// The workspace count as typed, where it reads as a number.
    pub fn requested_number_of_workspaces(&self) -> (r: Option<usize>)
        ensures
            match r {
                Some(n) => parse_usize(self.num_of_workspaces@) == Some(n as nat),
                None => parse_usize(self.num_of_workspaces@) is None,
            },
    {
        parse_usize_exec(&chars_of(self.num_of_workspaces.as_str()))
    }
}

/// The views of a vector of strings.
pub open spec fn string_views(v: Seq<String>) -> Seq<Seq<char>> {
    Seq::new(v.len(), |i: int| v[i]@)
}

/// The arguments of one call of the settings command line tool.
pub open spec fn command(verb: Seq<char>, schema: Seq<char>, rest: Seq<Seq<char>>) -> Seq<
    Seq<char>,
> {
    seq![verb, schema] + rest
}

fn push_arg(r: &mut Vec<String>, arg: String)
    ensures
        string_views(final(r)@) == string_views(old(r)@).push(arg@),
{
    let ghost before = string_views(r@);
    r.push(arg);
    assert(string_views(r@) =~= before.push(arg@));
}

/// Builds the calls of the settings command line tool and reads its answers.
pub struct GSettings;

impl GSettings {
    /// Clears the switch-to-application shortcuts 1 to 9.
    pub fn disable_switch_to_application_shortcuts() -> (r: Vec<Vec<String>>)
        ensures
            r@.len() == 9,
            forall|i: int|
                0 <= i < 9 ==> string_views((#[trigger] r@[i])@) == command(
                    "set"@,
                    "org.gnome.shell.keybindings"@,
                    seq!["switch-to-application-"@ + decimal((i + 1) as nat), EMPTY_KEYBINDING@],
                ),
    {
        let mut r: Vec<Vec<String>> = Vec::new();
        let mut id: u32 = 1;
        while id < 10
            invariant
                1 <= id <= 10,
                r@.len() == id - 1,
                forall|i: int|
                    0 <= i < id - 1 ==> string_views((#[trigger] r@[i])@) == command(
                        "set"@,
                        "org.gnome.shell.keybindings"@,
                        seq![
                            "switch-to-application-"@ + decimal((i + 1) as nat),
                            EMPTY_KEYBINDING@,
                        ],
                    ),
            decreases 10 - id,
        {
            r.push(Self::set_switch_to_application_keybinding(id, EMPTY_KEYBINDING));
            id = id + 1;
        }
        r
    }

    pub fn set_switch_to_application_keybinding(id: u32, gsettings_value: &str) -> (r: Vec<String>)
        ensures
            string_views(r@) == command(
                "set"@,
                "org.gnome.shell.keybindings"@,
                seq!["switch-to-application-"@ + decimal(id as nat), gsettings_value@],
            ),
    {
        let mut key = chars_of("switch-to-application-");
        key.append(&mut decimal_exec(id as usize));
        let mut r: Vec<String> = Vec::new();
        push_arg(&mut r, "set".to_owned());
        push_arg(&mut r, "org.gnome.shell.keybindings".to_owned());
        push_arg(&mut r, string_of(&key));
        push_arg(&mut r, gsettings_value.to_owned());
        assert(string_views(r@) =~= command(
            "set"@,
            "org.gnome.shell.keybindings"@,
            seq!["switch-to-application-"@ + decimal(id as nat), gsettings_value@],
        ));
        r
    }

    pub fn set_number_of_workspaces(num: usize) -> (r: Vec<String>)
        ensures
            string_views(r@) == command(
                "set"@,
                "org.gnome.desktop.wm.preferences"@,
                seq!["num-workspaces"@, decimal(num as nat)],
            ),
    {
        let mut r: Vec<String> = Vec::new();
        push_arg(&mut r, "set".to_owned());
        push_arg(&mut r, "org.gnome.desktop.wm.preferences".to_owned());
        push_arg(&mut r, "num-workspaces".to_owned());
        push_arg(&mut r, string_of(&decimal_exec(num)));
        assert(string_views(r@) =~= command(
            "set"@,
            "org.gnome.desktop.wm.preferences"@,
            seq!["num-workspaces"@, decimal(num as nat)],
        ));
        r
    }

    pub fn get_number_of_workspaces() -> (r: Vec<String>)
        ensures
            string_views(r@) == command(
                "get"@,
                "org.gnome.desktop.wm.preferences"@,
                seq!["num-workspaces"@],
            ),
    {
        let mut r: Vec<String> = Vec::new();
        push_arg(&mut r, "get".to_owned());
        push_arg(&mut r, "org.gnome.desktop.wm.preferences".to_owned());
        push_arg(&mut r, "num-workspaces".to_owned());
        assert(string_views(r@) =~= command(
            "get"@,
            "org.gnome.desktop.wm.preferences"@,
            seq!["num-workspaces"@],
        ));
        r
    }

    /// The workspace count that the tool printed, read with white space at either
    /// end ignored.
    pub fn number_of_workspaces_from_output(output: &str) -> (r: Option<usize>)
        ensures
            match r {
                Some(n) => parse_usize(trim(output@)) == Some(n as nat),
                None => parse_usize(trim(output@)) is None,
            },
    {
        parse_usize_exec(&trim_exec(&chars_of(output)))
    }

    pub fn get_wm_keybinding(gsettings_key: &str) -> (r: Vec<String>)
        ensures
            string_views(r@) == command(
                "get"@,
                "org.gnome.desktop.wm.keybindings"@,
                seq![gsettings_key@],
            ),
    {
        let mut r: Vec<String> = Vec::new();
        push_arg(&mut r, "get".to_owned());
        push_arg(&mut r, "org.gnome.desktop.wm.keybindings".to_owned());
        push_arg(&mut r, gsettings_key.to_owned());
        assert(string_views(r@) =~= command(
            "get"@,
            "org.gnome.desktop.wm.keybindings"@,
            seq![gsettings_key@],
        ));
        r
    }

    pub fn set_wm_keybinding(gsettings_key: &str, gsettings_value: &str) -> (r: Vec<String>)
        ensures
            string_views(r@) == command(
                "set"@,
                "org.gnome.desktop.wm.keybindings"@,
                seq![gsettings_key@, gsettings_value@],
            ),
    {
        let mut r: Vec<String> = Vec::new();
        push_arg(&mut r, "set".to_owned());
        push_arg(&mut r, "org.gnome.desktop.wm.keybindings".to_owned());
        push_arg(&mut r, gsettings_key.to_owned());
        push_arg(&mut r, gsettings_value.to_owned());
        assert(string_views(r@) =~= command(
            "set"@,
            "org.gnome.desktop.wm.keybindings"@,
            seq![gsettings_key@, gsettings_value@],
        ));
        r
    }
}

} // verus!
