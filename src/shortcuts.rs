use vstd::prelude::*;

use crate::keysym::KeysymTable;
use crate::text::{
    chars_of, contains, contains_exec, is_quote_or_bracket, is_white, occurs_at, remove_all,
    remove_all_exec, remove_quotes_and_brackets, string_of, strip_quotes_and_brackets, trim,
    trim_end, trim_exec, trim_start,
};

verus! {

/// A modifier combination: the name shown to the user and the prefix that the
/// settings store writes for it.
pub struct Modifier {
    pub name: String,
    pub gsettings_value: String,
}

impl Modifier {
    pub fn new(name: &str, gsettings_value: &str) -> (r: Self)
        ensures
            r.name@ == name@,
            r.gsettings_value@ == gsettings_value@,
    {
        Modifier { name: name.to_owned(), gsettings_value: gsettings_value.to_owned() }
    }
}

/// The modifier combinations offered, in the order shown.
pub fn get_vec() -> (r: Vec<Modifier>)
    ensures
        r@.len() == 6,
        r@[0].name@ == "NONE"@ && r@[0].gsettings_value@ == ""@,
        r@[1].name@ == "ALT"@ && r@[1].gsettings_value@ == "<Alt>"@,
        r@[2].name@ == "CTRL"@ && r@[2].gsettings_value@ == "<Ctrl>"@,
        r@[3].name@ == "SUPER"@ && r@[3].gsettings_value@ == "<Super>"@,
        r@[4].name@ == "SHIFT"@ && r@[4].gsettings_value@ == "<Shift>"@,
        r@[5].name@ == "SHIFT+SUPER"@ && r@[5].gsettings_value@ == "<Shift><Super>"@,
{
    vec![
        Modifier::new("NONE", ""),
        Modifier::new("ALT", "<Alt>"),
        Modifier::new("CTRL", "<Ctrl>"),
        Modifier::new("SUPER", "<Super>"),
        Modifier::new("SHIFT", "<Shift>"),
        Modifier::new("SHIFT+SUPER", "<Shift><Super>"),
    ]
}

/// Modifier `i` has a non-empty prefix that stands in the stored value `v`.
pub open spec fn modifier_present(ms: Seq<Modifier>, v: Seq<char>, i: int) -> bool {
    0 <= i < ms.len() && ms[i].gsettings_value@.len() > 0 && contains(v, ms[i].gsettings_value@)
}

/// Modifier `i` is the one read from `v`: present, with the longest prefix of all
/// present ones, and the first in the list among those of that length.
pub open spec fn modifier_chosen(ms: Seq<Modifier>, v: Seq<char>, i: int) -> bool {
    &&& modifier_present(ms, v, i)
    &&& forall|j: int|
        #![trigger modifier_present(ms, v, j)]
        modifier_present(ms, v, j) ==> ms[j].gsettings_value@.len()
            < ms[i].gsettings_value@.len() || (ms[j].gsettings_value@.len()
            == ms[i].gsettings_value@.len() && i <= j)
}

/// Which modifier a stored keybinding value holds, trying the longest prefixes first.
pub fn detect_modifier(ms: &Vec<Modifier>, v: &Vec<char>) -> (r: Option<usize>)
    ensures
        match r {
            Some(i) => modifier_chosen(ms@, v@, i as int),
            None => forall|j: int| !modifier_present(ms@, v@, j),
        },
{
    let mut best: Option<usize> = None;
    let mut best_len: usize = 0;
    let mut i: usize = 0;
    while i < ms.len()
        invariant
            i <= ms@.len(),
            match best {
                Some(b) => b < i && modifier_present(ms@, v@, b as int) && best_len
                    == ms@[b as int].gsettings_value@.len() && forall|j: int|
                    #![trigger modifier_present(ms@, v@, j)]
                    0 <= j < i && modifier_present(ms@, v@, j) ==> ms@[j].gsettings_value@.len()
                        < best_len || (ms@[j].gsettings_value@.len() == best_len && b <= j),
                None => forall|j: int| 0 <= j < i ==> !modifier_present(ms@, v@, j),
            },
        decreases ms@.len() - i,
    {
        let p = chars_of(ms[i].gsettings_value.as_str());
        if p.len() > 0 && contains_exec(v, &p) {
            let better = match best {
                Some(_) => p.len() > best_len,
                None => true,
            };
            if better {
                best = Some(i);
                best_len = p.len();
            }
        }
        i = i + 1;
    }
    best
}

/// The key symbol name that a stored value holds once the modifier prefix `m`,
/// the quotes and brackets and the array type mark are taken out.
pub open spec fn stored_keysym(v: Seq<char>, m: Seq<char>) -> Seq<char> {
    trim(remove_all(strip_quotes_and_brackets(remove_all(v, m)), "@as"@))
}

pub fn stored_keysym_exec(v: &Vec<char>, m: &Vec<char>) -> (r: Vec<char>)
    ensures
        r@ == stored_keysym(v@, m@),
{
    let a = remove_all_exec(v, m);
    let b = remove_quotes_and_brackets(&a);
    let mark = chars_of("@as");
    let c = remove_all_exec(&b, &mark);
    trim_exec(&c)
}

/// A key as shown to the user: its name where the table knows the symbol, else
/// the symbol itself.
pub open spec fn shown_key(t: KeysymTable, keysym: Seq<char>) -> Seq<char> {
    if t.keysym_map().contains_key(keysym) {
        t.keysym_map()[keysym]
    } else {
        keysym
    }
}

/// A key as the settings store names it: its symbol where the table knows the
/// key, else the key itself.
pub open spec fn stored_key(t: KeysymTable, key: Seq<char>) -> Seq<char> {
    if t.key_map().contains_key(key) {
        t.key_map()[key]
    } else {
        key
    }
}

/// What the settings store reads for one binding: a one-element string array.
pub open spec fn binding_value(m: Seq<char>, keysym: Seq<char>) -> Seq<char> {
    "['"@ + m + keysym + "']"@
}

/// A typed keybinding cut to its first character.
pub open spec fn first_key(s: Seq<char>) -> Seq<char> {
    if s.len() > 0 {
        seq![s[0]]
    } else {
        s
    }
}

pub fn first_key_exec(s: &String) -> (r: String)
    ensures
        r@ == first_key(s@),
{
    let cs = chars_of(s.as_str());
    let mut out: Vec<char> = Vec::new();
    if cs.len() > 0 {
        out.push(cs[0]);
    }
    assert(out@ =~= first_key(s@));
    string_of(&out)
}

pub fn shown_key_exec(t: &KeysymTable, keysym: &Vec<char>) -> (r: Vec<char>)
    ensures
        r@ == shown_key(*t, keysym@),
{
    match t.key_of(keysym) {
        Some(k) => k,
        None => {
            let mut r: Vec<char> = Vec::new();
            r.append(&mut keysym.clone());
            assert(r@ =~= keysym@);
            r
        },
    }
}

pub fn stored_key_exec(t: &KeysymTable, key: &Vec<char>) -> (r: Vec<char>)
    ensures
        r@ == stored_key(*t, key@),
{
    match t.keysym_of(key) {
        Some(k) => k,
        None => {
            let mut r: Vec<char> = Vec::new();
            r.append(&mut key.clone());
            assert(r@ =~= key@);
            r
        },
    }
}

pub fn binding_value_exec(m: &String, keysym: &Vec<char>) -> (r: String)
    ensures
        r@ == binding_value(m@, keysym@),
{
    let mut out = chars_of("['");
    out.append(&mut chars_of(m.as_str()));
    out.append(&mut keysym.clone());
    out.append(&mut chars_of("']"));
    let r = string_of(&out);
    assert(r@ =~= binding_value(m@, keysym@));
    r
}

proof fn lemma_remove_all_absent(s: Seq<char>, p: Seq<char>)
    requires
        p.len() > 0,
        forall|i: int| 0 <= i < s.len() ==> s[i] != p[0],
    ensures
        remove_all(s, p) == s,
    decreases s.len(),
{
    if s.len() > 0 {
        if occurs_at(s, p, 0) {
            assert(s.subrange(0, p.len() as int)[0] == s[0]);
        }
        lemma_remove_all_absent(s.skip(1), p);
        assert(seq![s[0]] + s.skip(1) =~= s);
    }
}

proof fn lemma_strip_concat(a: Seq<char>, b: Seq<char>)
    ensures
        strip_quotes_and_brackets(a + b) == strip_quotes_and_brackets(a)
            + strip_quotes_and_brackets(b),
    decreases b.len(),
{
    if b.len() == 0 {
        assert(a + b =~= a);
        assert(strip_quotes_and_brackets(a) + b =~= strip_quotes_and_brackets(a));
    } else {
        lemma_strip_concat(a, b.drop_last());
        assert((a + b).drop_last() =~= a + b.drop_last());
        assert((a + b).last() == b.last());
        let sa = strip_quotes_and_brackets(a);
        let sb = strip_quotes_and_brackets(b.drop_last());
        assert((sa + sb).push(b.last()) =~= sa + sb.push(b.last()));
    }
}

proof fn lemma_strip_absent(s: Seq<char>)
    requires
        forall|i: int| 0 <= i < s.len() ==> !is_quote_or_bracket(#[trigger] s[i]),
    ensures
        strip_quotes_and_brackets(s) == s,
    decreases s.len(),
{
    if s.len() > 0 {
        lemma_strip_absent(s.drop_last());
        assert(s.drop_last().push(s.last()) =~= s);
    }
}

/// A key symbol name as the form writes it: no '<', '@', quote or bracket in it,
/// and no white space at either end.
pub open spec fn plain_keysym(k: Seq<char>) -> bool {
    &&& forall|i: int|
        0 <= i < k.len() ==> #[trigger] k[i] != '<' && k[i] != '@' && !is_quote_or_bracket(k[i])
    &&& k.len() > 0 ==> !is_white(k[0]) && !is_white(k.last())
}

/// A value built from a modifier prefix (empty, or starting with '<') and a key
/// symbol name reads back as that key symbol name once that prefix is taken out.
pub proof fn lemma_binding_value_reads_back(m: Seq<char>, k: Seq<char>)
    requires
        m.len() == 0 || m[0] == '<',
        plain_keysym(k),
    ensures
        stored_keysym(binding_value(m, k), m) == k,
{
    reveal_strlit("['");
    reveal_strlit("']");
    reveal_strlit("@as");
    let open = "['"@;
    let close = "']"@;
    let v = binding_value(m, k);
    assert(v =~= open + m + k + close);
    let after_m = if m.len() == 0 {
        v
    } else {
        let rest = k + close;
        lemma_remove_all_absent(rest, m);
        let t1 = v.skip(1);
        assert(!occurs_at(v, m, 0)) by {
            if occurs_at(v, m, 0) {
                assert(v.subrange(0, m.len() as int)[0] == v[0]);
            }
        }
        assert(t1 =~= seq![open[1]] + m + rest);
        assert(!occurs_at(t1, m, 0)) by {
            if occurs_at(t1, m, 0) {
                assert(t1.subrange(0, m.len() as int)[0] == t1[0]);
            }
        }
        let t2 = t1.skip(1);
        assert(t2 =~= m + rest);
        assert(occurs_at(t2, m, 0)) by {
            assert(t2.subrange(0, m.len() as int) =~= m);
        }
        assert(t2.skip(m.len() as int) =~= rest);
        assert(remove_all(t2, m) == rest);
        assert(remove_all(t1, m) == seq![t1[0]] + rest);
        assert(remove_all(v, m) == seq![v[0]] + (seq![t1[0]] + rest));
        assert(seq![v[0]] + (seq![t1[0]] + rest) =~= open + k + close);
        open + k + close
    };
    assert(remove_all(v, m) == open + k + close);
    if m.len() == 0 {
        assert(v =~= open + k + close);
    }
    lemma_strip_concat(open + k, close);
    lemma_strip_concat(open, k);
    lemma_strip_absent(k);
    assert(strip_quotes_and_brackets(open) =~= Seq::<char>::empty()) by {
        assert(open.len() == 2 && open.last() == '\'');
        assert(strip_quotes_and_brackets(open) == strip_quotes_and_brackets(open.drop_last()));
        assert(open.drop_last().last() == '[');
        assert(strip_quotes_and_brackets(open.drop_last()) == strip_quotes_and_brackets(
            open.drop_last().drop_last(),
        ));
        assert(open.drop_last().drop_last().len() == 0);
    }
    assert(strip_quotes_and_brackets(close) =~= Seq::<char>::empty()) by {
        assert(close.len() == 2 && close.last() == ']');
        assert(strip_quotes_and_brackets(close) == strip_quotes_and_brackets(close.drop_last()));
        assert(close.drop_last().last() == '\'');
        assert(strip_quotes_and_brackets(close.drop_last()) == strip_quotes_and_brackets(
            close.drop_last().drop_last(),
        ));
        assert(close.drop_last().drop_last().len() == 0);
    }
    assert(strip_quotes_and_brackets(open + k + close) =~= k);
    lemma_remove_all_absent(k, "@as"@);
    if k.len() > 0 {
        assert(trim_start(k) == k);
        assert(trim_end(k) == k);
    }
}

} // verus!
