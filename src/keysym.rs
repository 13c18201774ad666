use vstd::prelude::*;

use crate::text::{chars_of, lines, split_lines, split_words, views, words};

verus! {

/// A pair of character sequences.
pub type Pair = (Seq<char>, Seq<char>);

/// The map that inserting the pairs in order builds: a later pair overrides an
/// earlier one with the same first element.
pub open spec fn table_map(e: Seq<Pair>) -> Map<Seq<char>, Seq<char>>
    decreases e.len(),
{
    if e.len() == 0 {
        Map::empty()
    } else {
        table_map(e.drop_last()).insert(e.last().0, e.last().1)
    }
}

/// Each pair with its two elements swapped.
pub open spec fn swapped(e: Seq<Pair>) -> Seq<Pair> {
    Seq::new(e.len(), |i: int| (e[i].1, e[i].0))
}

/// What a line of the symbol table gives: its first and third words, the
/// symbol name and the key, where it has at least three words.
pub open spec fn line_entry(line: Seq<char>) -> Option<Pair> {
    if words(line).len() >= 3 {
        Some((words(line)[0], words(line)[2]))
    } else {
        None
    }
}

/// The (symbol name, key) pairs of the given lines, in order.
pub open spec fn entries_of_lines(ls: Seq<Seq<char>>) -> Seq<Pair>
    decreases ls.len(),
{
    if ls.len() == 0 {
        Seq::empty()
    } else {
        match line_entry(ls.last()) {
            Some(p) => entries_of_lines(ls.drop_last()).push(p),
            None => entries_of_lines(ls.drop_last()),
        }
    }
}

/// The (symbol name, key) pairs of a symbol table's text.
pub open spec fn keysym_entries(text: Seq<char>) -> Seq<Pair> {
    entries_of_lines(lines(text))
}

/// The views of a vector of pairs of character vectors.
pub open spec fn pair_views(v: Seq<(Vec<char>, Vec<char>)>) -> Seq<Pair> {
    Seq::new(v.len(), |i: int| (v[i].0@, v[i].1@))
}

/// Lookup tables between key names and key symbol names, filled from a text
/// table whose lines hold a symbol name first and its key third.
pub struct KeysymTable {
    /// (key, symbol name) pairs in the order of insertion.
    pub key_to_keysym: Vec<(Vec<char>, Vec<char>)>,
    /// (symbol name, key) pairs in the order of insertion.
    pub keysym_to_key: Vec<(Vec<char>, Vec<char>)>,
}

impl KeysymTable {
    /// The map from key to symbol name.
    pub open spec fn key_map(&self) -> Map<Seq<char>, Seq<char>> {
        table_map(pair_views(self.key_to_keysym@))
    }

    /// The map from symbol name to key.
    pub open spec fn keysym_map(&self) -> Map<Seq<char>, Seq<char>> {
        table_map(pair_views(self.keysym_to_key@))
    }

    pub fn new() -> (r: Self)
        ensures
            r.key_map() == Map::<Seq<char>, Seq<char>>::empty(),
            r.keysym_map() == Map::<Seq<char>, Seq<char>>::empty(),
            pair_views(r.key_to_keysym@) == Seq::<Pair>::empty(),
            pair_views(r.keysym_to_key@) == Seq::<Pair>::empty(),
    {
        let r = KeysymTable { key_to_keysym: Vec::new(), keysym_to_key: Vec::new() };
        assert(pair_views(r.key_to_keysym@) =~= Seq::<Pair>::empty());
        assert(pair_views(r.keysym_to_key@) =~= Seq::<Pair>::empty());
        r
    }

    /// Adds the entries of a symbol table's text, after those already held.
    pub fn add_text(&mut self, text: &str)
        ensures
            pair_views(final(self).keysym_to_key@) == pair_views(old(self).keysym_to_key@)
                + keysym_entries(text@),
            pair_views(final(self).key_to_keysym@) == pair_views(old(self).key_to_keysym@)
                + swapped(keysym_entries(text@)),
    {
        let cs = chars_of(text);
        let ls = split_lines(&cs);
        let ghost all = lines(text@);
        let ghost k0 = pair_views(self.keysym_to_key@);
        let ghost s0 = pair_views(self.key_to_keysym@);
        assert(all.subrange(0, 0) =~= Seq::<Seq<char>>::empty());
        assert(k0 + entries_of_lines(all.subrange(0, 0)) =~= k0);
        assert(s0 + swapped(entries_of_lines(all.subrange(0, 0))) =~= s0);
        let mut i: usize = 0;
        while i < ls.len()
            invariant
                i <= ls@.len(),
                views(ls@) == all,
                pair_views(self.keysym_to_key@) == k0 + entries_of_lines(all.subrange(0, i as int)),
                pair_views(self.key_to_keysym@) == s0 + swapped(
                    entries_of_lines(all.subrange(0, i as int)),
                ),
            decreases ls@.len() - i,
        {
            assert(all.subrange(0, i + 1).drop_last() =~= all.subrange(0, i as int));
            assert(all[i as int] == ls@[i as int]@);
            let ws = split_words(&ls[i]);
            if ws.len() >= 3 {
                let ghost e = entries_of_lines(all.subrange(0, i as int));
                let sym = ws[0].clone();
                let key = ws[2].clone();
                assert(sym@ =~= ws@[0]@);
                assert(key@ =~= ws@[2]@);
                assert(views(ws@)[0] == ws@[0]@);
                assert(views(ws@)[2] == ws@[2]@);
                let ghost kv = pair_views(self.keysym_to_key@);
                let ghost sv = pair_views(self.key_to_keysym@);
                self.keysym_to_key.push((sym.clone(), key.clone()));
                self.key_to_keysym.push((key, sym));
                assert(pair_views(self.keysym_to_key@) =~= kv.push((ws@[0]@, ws@[2]@)));
                assert(pair_views(self.key_to_keysym@) =~= sv.push((ws@[2]@, ws@[0]@)));
                assert(swapped(e.push((ws@[0]@, ws@[2]@))) =~= swapped(e).push((ws@[2]@, ws@[0]@)));
                assert(k0 + e.push((ws@[0]@, ws@[2]@)) =~= (k0 + e).push((ws@[0]@, ws@[2]@)));
                assert(s0 + swapped(e).push((ws@[2]@, ws@[0]@)) =~= (s0 + swapped(e)).push(
                    (ws@[2]@, ws@[0]@),
                ));
            }
            i = i + 1;
        }
        assert(all.subrange(0, ls@.len() as int) =~= all);
    }

    /// The symbol name of a key, as the last entry for that key gives it.
    pub fn keysym_of(&self, key: &Vec<char>) -> (r: Option<Vec<char>>)
        ensures
            match r {
                Some(v) => self.key_map().contains_key(key@) && v@ == self.key_map()[key@],
                None => !self.key_map().contains_key(key@),
            },
    {
        lookup(&self.key_to_keysym, key)
    }

    /// The key of a symbol name, as the last entry for that name gives it.
    pub fn key_of(&self, keysym: &Vec<char>) -> (r: Option<Vec<char>>)
        ensures
            match r {
                Some(v) => self.keysym_map().contains_key(keysym@) && v@
                    == self.keysym_map()[keysym@],
                None => !self.keysym_map().contains_key(keysym@),
            },
    {
        lookup(&self.keysym_to_key, keysym)
    }
}

pub fn same_chars(a: &Vec<char>, b: &Vec<char>) -> (r: bool)
    ensures
        r == (a@ == b@),
{
    if a.len() != b.len() {
        return false;
    }
    let mut i: usize = 0;
    while i < a.len()
        invariant
            a@.len() == b@.len(),
            i <= a@.len(),
            forall|j: int| 0 <= j < i ==> a@[j] == b@[j],
        decreases a@.len() - i,
    {
        if a[i] != b[i] {
            return false;
        }
        i = i + 1;
    }
    assert(a@ =~= b@);
    true
}

proof fn lemma_table_map_prefix(e: Seq<Pair>, k: Seq<char>, i: int)
    requires
        0 <= i <= e.len(),
        forall|j: int| i <= j < e.len() ==> (#[trigger] e[j]).0 != k,
    ensures
        table_map(e).contains_key(k) == table_map(e.subrange(0, i)).contains_key(k),
        table_map(e)[k] == table_map(e.subrange(0, i))[k],
    decreases e.len(),
{
    if i == e.len() {
        assert(e.subrange(0, i) =~= e);
    } else {
        lemma_table_map_prefix(e.drop_last(), k, i);
        assert(e.drop_last().subrange(0, i) =~= e.subrange(0, i));
    }
}

fn lookup(pairs: &Vec<(Vec<char>, Vec<char>)>, k: &Vec<char>) -> (r: Option<Vec<char>>)
    ensures
        match r {
            Some(v) => table_map(pair_views(pairs@)).contains_key(k@) && v@ == table_map(
                pair_views(pairs@),
            )[k@],
            None => !table_map(pair_views(pairs@)).contains_key(k@),
        },
{
    let ghost e = pair_views(pairs@);
    let mut i: usize = pairs.len();
    while i > 0
        invariant
            i <= pairs@.len(),
            e == pair_views(pairs@),
            forall|j: int| i <= j < e.len() ==> (#[trigger] e[j]).0 != k@,
        decreases i,
    {
        if same_chars(&pairs[i - 1].0, k) {
            proof {
                lemma_table_map_prefix(e, k@, i as int);
                assert(e.subrange(0, i as int).drop_last() =~= e.subrange(0, i - 1));
            }
            let v = pairs[i - 1].1.clone();
            assert(v@ =~= pairs@[i - 1].1@);
            return Some(v);
        }
        i = i - 1;
    }
    proof {
        lemma_table_map_prefix(e, k@, 0);
        assert(e.subrange(0, 0) =~= Seq::<Pair>::empty());
    }
    None
}

} // verus!
