//! Translate characters and key names into keycodes for injection through
//! the seat's virtual keyboard.
//!
//! The tables are built from the same "us" keymap that the keyboard
//! advertises to clients, so what is pressed is what clients decode.

use std::collections::HashMap;

use vstd::prelude::*;
use vstd::string::*;

use crate::text::{chars_of, contains, debug_str, same, split, to_lower, trim};

verus! {

broadcast use vstd::std_specs::hash::group_hash_axioms;

// evdev codes for modifier keys (xkb keycode = evdev + 8).
pub const KEY_LEFTCTRL: u32 = 29;

pub const KEY_LEFTSHIFT: u32 = 42;

pub const KEY_LEFTALT: u32 = 56;

pub const KEY_LEFTMETA: u32 = 125;

/// A key to press, with or without Shift held.
#[derive(Debug, Clone, Copy, PartialEq, Eq, Structural)]
pub struct KeyPress {
    pub keycode: u32,
    pub shift: bool,
}

/// The key symbols that one keycode of the keymap produces.
#[derive(Debug)]
pub struct KeyRow {
    pub keycode: u32,
    /// Symbols without Shift.
    pub plain: Vec<u32>,
    /// Symbols with Shift.
    pub shifted: Vec<u32>,
}

/// What looking a key name up in the keysym registry yields. 0 stands for an
/// unknown name.
#[derive(Debug, Clone, Copy, PartialEq, Eq, Structural)]
pub struct Lookup {
    /// The symbol of exactly this name.
    pub exact: u32,
    /// The symbol when upper and lower case are not told apart.
    pub folded: u32,
}

impl Lookup {
    /// The exact match, else the match that ignores case.
    pub open spec fn symbol(self) -> u32 {
        if self.exact == 0 {
            self.folded
        } else {
            self.exact
        }
    }
}

/// Finds keys by the character they type and by their key symbol.
pub struct KeyMapper {
    /// Keyed by code point.
    pub by_char: HashMap<u32, KeyPress>,
    pub by_keysym: HashMap<u32, KeyPress>,
    /// The lookup of "Return", which types a line break.
    pub line_break: Lookup,
    /// The lookup of "Tab", which types a tabulator.
    pub tabulator: Lookup,
}

/// The character that a key symbol stands for, as far as it has one.
pub uninterp spec fn keysym_char(keysym: u32) -> Option<char>;

/// Whether a key symbol is a printable character of Latin-1.
pub open spec fn is_latin1(keysym: u32) -> bool {
    0x20 <= keysym <= 0x7e || 0xa0 <= keysym <= 0xff
}

/// Calls `xkeysym::Keysym::key_char`. The result depends on the symbol alone
/// and is known by name only, except that the symbols 0x20 to 0x7e and 0xa0
/// to 0xff are the Latin-1 characters of the same number.
#[verifier::external_body]
fn key_char(keysym: u32) -> (r: Option<char>)
    ensures
        r == keysym_char(keysym),
        is_latin1(keysym) ==> r == Some(keysym as char),
{
    xkeysym::Keysym::new(keysym).key_char()
}

/// One symbol of the keymap and the key press that produces it.
pub struct KeyEntry {
    pub keysym: u32,
    pub press: KeyPress,
}

/// The entries of one level of a key.
pub open spec fn level_entries(keycode: u32, shift: bool, syms: Seq<u32>) -> Seq<KeyEntry> {
    syms.map_values(|s: u32| KeyEntry { keysym: s, press: KeyPress { keycode, shift } })
}

/// The entries of one key: those without Shift come first.
pub open spec fn row_entries(row: KeyRow) -> Seq<KeyEntry> {
    level_entries(row.keycode, false, row.plain@) + level_entries(
        row.keycode,
        true,
        row.shifted@,
    )
}

/// All entries of the keymap, key by key.
pub open spec fn keymap_entries(rows: Seq<KeyRow>) -> Seq<KeyEntry>
    decreases rows.len(),
{
    if rows.len() == 0 {
        Seq::empty()
    } else {
        keymap_entries(rows.drop_last()) + row_entries(rows.last())
    }
}

/// Adds a key press unless the key is already taken.
pub open spec fn insert_first(m: Map<u32, KeyPress>, k: u32, press: KeyPress) -> Map<u32, KeyPress> {
    if m.contains_key(k) {
        m
    } else {
        m.insert(k, press)
    }
}

/// Symbol to key press: the first entry of a symbol counts.
pub open spec fn keysym_table(entries: Seq<KeyEntry>) -> Map<u32, KeyPress>
    decreases entries.len(),
{
    if entries.len() == 0 {
        Map::empty()
    } else {
        insert_first(keysym_table(entries.drop_last()), entries.last().keysym, entries.last().press)
    }
}

/// Code point to key press: the first entry whose symbol is that character
/// counts.
pub open spec fn char_table(entries: Seq<KeyEntry>) -> Map<u32, KeyPress>
    decreases entries.len(),
{
    if entries.len() == 0 {
        Map::empty()
    } else {
        let before = char_table(entries.drop_last());
        match keysym_char(entries.last().keysym) {
            Some(c) => insert_first(before, c as u32, entries.last().press),
            None => before,
        }
    }
}

/// Whether the Latin-1 symbols among these stand for the characters of the
/// same number.
pub open spec fn latin1_known(entries: Seq<KeyEntry>) -> bool {
    forall|i: int|
        0 <= i < entries.len() && is_latin1((#[trigger] entries[i]).keysym) ==> keysym_char(
            entries[i].keysym,
        ) == Some(entries[i].keysym as char)
}

proof fn lemma_char_is_in_table(entries: Seq<KeyEntry>, i: int, c: char)
    requires
        0 <= i < entries.len(),
        keysym_char(entries[i].keysym) == Some(c),
    ensures
        char_table(entries).contains_key(c as u32),
    decreases entries.len(),
{
    if i < entries.len() - 1 {
        lemma_char_is_in_table(entries.drop_last(), i, c);
    }
}

/// What a table holds for a key.
pub open spec fn entry_of(m: Map<u32, KeyPress>, k: u32) -> Option<KeyPress> {
    if m.contains_key(k) {
        Some(m[k])
    } else {
        None
    }
}

fn get_press(m: &HashMap<u32, KeyPress>, k: u32) -> (r: Option<KeyPress>)
    ensures
        r == entry_of(m@, k),
{
    match m.get(&k) {
        Some(p) => Some(*p),
        None => None,
    }
}

fn add_first(m: &mut HashMap<u32, KeyPress>, k: u32, press: KeyPress)
    ensures
        final(m)@ == insert_first(old(m)@, k, press),
{
    if !m.contains_key(&k) {
        m.insert(k, press);
    }
}

/// The name under which a key is registered: common aliases are replaced,
/// every other name is taken in lower case.
pub open spec fn canonical(name: Seq<char>) -> Seq<char> {
    let l = crate::text::lower(name);
    if l == "enter"@ || l == "return"@ {
        "Return"@
    } else if l == "esc"@ || l == "escape"@ {
        "Escape"@
    } else if l == "space"@ {
        "space"@
    } else if l == "tab"@ {
        "Tab"@
    } else if l == "backspace"@ {
        "BackSpace"@
    } else if l == "delete"@ || l == "del"@ {
        "Delete"@
    } else if l == "insert"@ {
        "Insert"@
    } else if l == "home"@ {
        "Home"@
    } else if l == "end"@ {
        "End"@
    } else if l == "pageup"@ || l == "page_up"@ || l == "prior"@ {
        "Prior"@
    } else if l == "pagedown"@ || l == "page_down"@ || l == "next"@ {
        "Next"@
    } else if l == "up"@ {
        "Up"@
    } else if l == "down"@ {
        "Down"@
    } else if l == "left"@ {
        "Left"@
    } else if l == "right"@ {
        "Right"@
    } else if l == "menu"@ {
        "Menu"@
    } else if l == "printscreen"@ || l == "print"@ {
        "Print"@
    } else {
        l
    }
}

/// The name under which a key is registered.
pub fn canonical_name(name: &str) -> (r: String)
    ensures
        r@ == canonical(name@),
{
    let l = to_lower(name);
    if same(&l, "enter") || same(&l, "return") {
        "Return".to_owned()
    } else if same(&l, "esc") || same(&l, "escape") {
        "Escape".to_owned()
    } else if same(&l, "space") {
        "space".to_owned()
    } else if same(&l, "tab") {
        "Tab".to_owned()
    } else if same(&l, "backspace") {
        "BackSpace".to_owned()
    } else if same(&l, "delete") || same(&l, "del") {
        "Delete".to_owned()
    } else if same(&l, "insert") {
        "Insert".to_owned()
    } else if same(&l, "home") {
        "Home".to_owned()
    } else if same(&l, "end") {
        "End".to_owned()
    } else if same(&l, "pageup") || same(&l, "page_up") || same(&l, "prior") {
        "Prior".to_owned()
    } else if same(&l, "pagedown") || same(&l, "page_down") || same(&l, "next") {
        "Next".to_owned()
    } else if same(&l, "up") {
        "Up".to_owned()
    } else if same(&l, "down") {
        "Down".to_owned()
    } else if same(&l, "left") {
        "Left".to_owned()
    } else if same(&l, "right") {
        "Right".to_owned()
    } else if same(&l, "menu") {
        "Menu".to_owned()
    } else if same(&l, "printscreen") || same(&l, "print") {
        "Print".to_owned()
    } else {
        l
    }
}

/// The keycode of the modifier of this name; case does not matter.
pub open spec fn modifier_code(name: Seq<char>) -> Option<u32> {
    let l = crate::text::lower(name);
    if l == "ctrl"@ || l == "control"@ {
        Some((KEY_LEFTCTRL + 8) as u32)
    } else if l == "shift"@ {
        Some((KEY_LEFTSHIFT + 8) as u32)
    } else if l == "alt"@ {
        Some((KEY_LEFTALT + 8) as u32)
    } else if l == "super"@ || l == "meta"@ || l == "win"@ || l == "cmd"@ || l == "logo"@ {
        Some((KEY_LEFTMETA + 8) as u32)
    } else {
        None
    }
}

/// The text of a combo between plus signs, without white space around it.
pub open spec fn split_parts(combo: Seq<char>) -> Seq<Seq<char>> {
    crate::text::pieces(combo, '+').map_values(|p: Seq<char>| crate::text::trimmed(p))
}

/// Whether the key of a combo is the plus sign itself: nothing stands between
/// the last two plus signs nor behind them, or the combo is one plus sign.
pub open spec fn names_plus(combo: Seq<char>) -> bool {
    let raw = split_parts(combo);
    raw.len() >= 2 && raw[raw.len() - 1].len() == 0 && raw[raw.len() - 2].len() == 0
}

/// The parts of a combo: its modifiers and, in the end, its key.
pub open spec fn combo_parts(combo: Seq<char>) -> Seq<Seq<char>> {
    let raw = split_parts(combo);
    if names_plus(combo) {
        raw.take(raw.len() - 2).push("+"@)
    } else {
        raw
    }
}

/// The keycodes of the named modifiers, or the first name that is none.
pub open spec fn modifier_codes(names: Seq<Seq<char>>) -> Result<Seq<u32>, Seq<char>>
    decreases names.len(),
{
    if names.len() == 0 {
        Ok(Seq::empty())
    } else {
        match modifier_codes(names.drop_last()) {
            Err(bad) => Err(bad),
            Ok(codes) => match modifier_code(names.last()) {
                Some(code) => Ok(codes.push(code)),
                None => Err(names.last()),
            },
        }
    }
}

/// Whether a combo mentions Shift, in any case.
pub open spec fn mentions_shift(combo: Seq<char>) -> bool {
    crate::text::occurs(crate::text::lower(combo), "shift"@)
}

/// Whether a combo mentions Shift, in any case.
pub fn combo_mentions_shift(combo: &str) -> (r: bool)
    ensures
        r == mentions_shift(combo@),
{
    contains(&to_lower(combo), "shift")
}

fn parts_of(combo: &str) -> (r: Vec<String>)
    ensures
        crate::text::texts(r@) == combo_parts(combo@),
        r@.len() >= 1,
{
    let raw = split(combo, '+');
    let mut out: Vec<String> = Vec::new();
    for i in 0..raw.len()
        invariant
            crate::text::texts(raw@) == crate::text::pieces(combo@, '+'),
            out@.len() == i,
            forall|j: int|
                0 <= j < i ==> #[trigger] out@[j]@ == crate::text::trimmed(raw@[j]@),
    {
        out.push(trim(&raw[i]));
    }
    proof {
        let raw_texts = crate::text::texts(raw@);
        assert forall|j: int| 0 <= j < out@.len() implies crate::text::texts(out@)[j]
            == split_parts(combo@)[j] by {
            assert(raw_texts[j] == raw@[j]@);
        }
        assert(crate::text::texts(out@) =~= split_parts(combo@));
    }
    let n = out.len();
    let ghost all = split_parts(combo@);
    assert(n == all.len());
    if n >= 2 && out[n - 1].as_str().is_empty() && out[n - 2].as_str().is_empty() {
        // the plus sign itself is the key
        assert(all[n - 1] == out@[n - 1]@ && all[n - 2] == out@[n - 2]@);
        out.truncate(n - 2);
        let key = "+".to_owned();
        out.push(key);
        assert(crate::text::texts(out@) =~= all.take(n - 2).push(key@));
    } else if n >= 2 {
        assert(all[n - 1] == out@[n - 1]@ && all[n - 2] == out@[n - 2]@);
    }
    out
}

/// The text of the refusal of an unknown part of a combo.
pub open spec fn unknown_part(kind: Seq<char>, part: Seq<char>, combo: Seq<char>) -> Seq<char> {
    kind + crate::text::str_debug(part) + " in "@ + crate::text::str_debug(combo)
}

fn unknown_part_text(kind: &str, part: &str, combo: &str) -> (r: String)
    ensures
        r@ == unknown_part(kind@, part@, combo@),
{
    kind.to_owned().concat(&debug_str(part)).concat(" in ").concat(&debug_str(combo))
}

fn modifiers_of(parts: &Vec<String>, n: usize) -> (r: Result<Vec<u32>, usize>)
    requires
        n <= parts@.len(),
    ensures
        match modifier_codes(crate::text::texts(parts@).take(n as int)) {
            Ok(codes) => r is Ok && r->Ok_0@ == codes,
            Err(bad) => r is Err && r->Err_0 < parts@.len() && parts@[r->Err_0 as int]@ == bad,
        },
{
    let ghost all = crate::text::texts(parts@);
    let mut codes: Vec<u32> = Vec::new();
    for i in 0..n
        invariant
            n <= parts@.len(),
            all == crate::text::texts(parts@),
            modifier_codes(all.take(i as int)) == Ok::<Seq<u32>, Seq<char>>(codes@),
    {
        proof {
            assert(all.take(i + 1).drop_last() == all.take(i as int));
            assert(all.take(i + 1).last() == parts@[i as int]@);
        }
        match KeyMapper::modifier(&parts[i]) {
            Some(code) => codes.push(code),
            None => {
                proof {
                    lemma_modifier_codes_err(all, i + 1, n as int);
                }
                return Err(i);
            },
        }
    }
    Ok(codes)
}

proof fn lemma_modifier_codes_err(all: Seq<Seq<char>>, i: int, n: int)
    requires
        0 <= i <= n <= all.len(),
        modifier_codes(all.take(i)) is Err,
    ensures
        modifier_codes(all.take(n)) == modifier_codes(all.take(i)),
    decreases n - i,
{
    if i < n {
        lemma_modifier_codes_err(all, i, n - 1);
        assert(all.take(n).drop_last() == all.take(n - 1));
    }
}

impl KeyMapper {
    /// What typing a character takes.
    pub open spec fn char_press(self, c: char) -> Option<KeyPress> {
        if c == '\n' || c == '\r' {
            self.symbol_press(self.line_break)
        } else if c == '\t' {
            self.symbol_press(self.tabulator)
        } else {
            entry_of(self.by_char@, c as u32)
        }
    }

    /// What a looked-up key takes.
    pub open spec fn symbol_press(self, found: Lookup) -> Option<KeyPress> {
        if found.symbol() == 0 {
            None
        } else {
            entry_of(self.by_keysym@, found.symbol())
        }
    }

    /// What a name that is a single typable character takes.
    pub open spec fn single_press(self, name: Seq<char>) -> Option<KeyPress> {
        if name.len() == 1 {
            self.char_press(name[0])
        } else {
            None
        }
    }

    /// What a key name takes, where `found` is the lookup of its registered
    /// name.
    pub open spec fn name_press(self, name: Seq<char>, found: Lookup) -> Option<KeyPress> {
        match self.single_press(name) {
            Some(p) => Some(p),
            None => self.symbol_press(found),
        }
    }

    /// What a combo takes: the modifiers to hold and the key to press, or why
    /// it is refused. `found` is the lookup of the registered name of its
    /// last part.
    pub open spec fn combo_press(self, combo: Seq<char>, found: Lookup) -> Result<
        (Seq<u32>, KeyPress),
        Seq<char>,
    > {
        let parts = combo_parts(combo);
        match modifier_codes(parts.drop_last()) {
            Err(bad) => Err(unknown_part("unknown modifier "@, bad, combo)),
            Ok(codes) => match self.name_press(parts.last(), found) {
                Some(p) => Ok((codes, p)),
                None => Err(unknown_part("unknown key "@, parts.last(), combo)),
            },
        }
    }

    /// Builds the tables from the keys of the keymap, in keycode order.
    /// `line_break` and `tabulator` are the lookups of "Return" and "Tab".
    /// Every printable Latin-1 character of the keymap can be typed.
    pub fn new(rows: &Vec<KeyRow>, line_break: Lookup, tabulator: Lookup) -> (r: Self)
        ensures
            r.by_keysym@ == keysym_table(keymap_entries(rows@)),
            r.by_char@ == char_table(keymap_entries(rows@)),
            r.line_break == line_break,
            r.tabulator == tabulator,
            latin1_known(keymap_entries(rows@)),
            forall|i: int|
                0 <= i < keymap_entries(rows@).len() && is_latin1(
                    (#[trigger] keymap_entries(rows@)[i]).keysym,
                ) ==> r.char_press(keymap_entries(rows@)[i].keysym as char) is Some,
    {
        let mut mapper = KeyMapper {
            by_char: HashMap::new(),
            by_keysym: HashMap::new(),
            line_break,
            tabulator,
        };
        let ghost mut seen: Seq<KeyEntry> = Seq::empty();
        for i in 0..rows.len()
            invariant
                seen == keymap_entries(rows@.take(i as int)),
                mapper.by_keysym@ == keysym_table(seen),
                mapper.by_char@ == char_table(seen),
                latin1_known(seen),
                mapper.line_break == line_break,
                mapper.tabulator == tabulator,
        {
            let row = &rows[i];
            let ghost start = seen;
            proof {
                assert(level_entries(row.keycode, false, row.plain@.take(0)) == Seq::<
                    KeyEntry,
                >::empty());
                assert(start == start + level_entries(row.keycode, false, row.plain@.take(0)));
                assert(row.plain@.take(row.plain@.len() as int) == row.plain@);
                assert(row.shifted@.take(row.shifted@.len() as int) == row.shifted@);
            }
            mapper.add_level(row.keycode, false, &row.plain, Ghost(start));
            let ghost middle = start + level_entries(row.keycode, false, row.plain@);
            mapper.add_level(row.keycode, true, &row.shifted, Ghost(middle));
            proof {
                seen = middle + level_entries(row.keycode, true, row.shifted@);
                assert(seen == start + row_entries(*row));
                assert(rows@.take(i + 1).drop_last() == rows@.take(i as int));
                assert(seen == keymap_entries(rows@.take(i + 1)));
            }
        }
        assert(rows@.take(rows@.len() as int) == rows@);
        proof {
            assert forall|i: int|
                0 <= i < seen.len() && is_latin1(
                    (#[trigger] seen[i]).keysym,
                ) implies mapper.char_press(seen[i].keysym as char) is Some by {
                let c = seen[i].keysym as char;
                lemma_char_is_in_table(seen, i, c);
                assert(c as u32 == seen[i].keysym);
            }
        }
        mapper
    }

    /// Adds one level of a key behind the entries already seen.
    fn add_level(&mut self, keycode: u32, shift: bool, syms: &Vec<u32>, seen: Ghost<Seq<KeyEntry>>)
        requires
            old(self).by_keysym@ == keysym_table(seen@),
            old(self).by_char@ == char_table(seen@),
            latin1_known(seen@),
        ensures
            latin1_known(seen@ + level_entries(keycode, shift, syms@)),
            final(self).by_keysym@ == keysym_table(
                seen@ + level_entries(keycode, shift, syms@),
            ),
            final(self).by_char@ == char_table(seen@ + level_entries(keycode, shift, syms@)),
            final(self).line_break == old(self).line_break,
            final(self).tabulator == old(self).tabulator,
    {
        let press = KeyPress { keycode, shift };
        let ghost entries = level_entries(keycode, shift, syms@);
        assert(seen@ + entries.take(0) == seen@);
        for i in 0..syms.len()
            invariant
                press == (KeyPress { keycode, shift }),
                entries == level_entries(keycode, shift, syms@),
                self.by_keysym@ == keysym_table(seen@ + entries.take(i as int)),
                self.by_char@ == char_table(seen@ + entries.take(i as int)),
                latin1_known(seen@ + entries.take(i as int)),
                self.line_break == old(self).line_break,
                self.tabulator == old(self).tabulator,
        {
            let sym = syms[i];
            add_first(&mut self.by_keysym, sym, press);
            match key_char(sym) {
                Some(c) => add_first(&mut self.by_char, c as u32, press),
                None => {},
            }
            proof {
                let next = seen@ + entries.take(i + 1);
                assert(next.drop_last() == seen@ + entries.take(i as int));
                assert(next.last() == KeyEntry { keysym: sym, press });
                assert forall|j: int|
                    0 <= j < next.len() && is_latin1((#[trigger] next[j]).keysym) implies keysym_char(
                    next[j].keysym,
                ) == Some(next[j].keysym as char) by {
                    if j < next.len() - 1 {
                        assert(next.drop_last()[j] == next[j]);
                    }
                }
            }
        }
        assert(entries.take(entries.len() as int) == entries);
    }

    fn for_symbol(&self, found: Lookup) -> (r: Option<KeyPress>)
        ensures
            r == self.symbol_press(found),
    {
        let sym = if found.exact == 0 {
            found.folded
        } else {
            found.exact
        };
        if sym == 0 {
            None
        } else {
            get_press(&self.by_keysym, sym)
        }
    }

    /// The key press that types a character, if the keymap has one.
    pub fn for_char(&self, c: char) -> (r: Option<KeyPress>)
        ensures
            r == self.char_press(c),
    {
        if c == '\n' || c == '\r' {
            self.for_symbol(self.line_break)
        } else if c == '\t' {
            self.for_symbol(self.tabulator)
        } else {
            get_press(&self.by_char, c as u32)
        }
    }

    fn for_single(&self, name: &str) -> (r: Option<KeyPress>)
        ensures
            r == self.single_press(name@),
    {
        let chars = chars_of(name);
        if chars.len() == 1 {
            self.for_char(chars[0])
        } else {
            None
        }
    }

    /// The registered name that has to be looked up to resolve a key name.
    /// None if the name is a single character that the keymap can type.
    pub fn name_to_look_up(&self, name: &str) -> (r: Option<String>)
        ensures
            r is Some <==> self.single_press(name@) is None,
            r is Some ==> r->Some_0@ == canonical(name@),
    {
        match self.for_single(name) {
            Some(_) => None,
            None => Some(canonical_name(name)),
        }
    }

    /// Resolve a key name: a single character, a keysym name
    /// (case-insensitive, e.g. "Return", "F5"), or a common alias. `found` is
    /// the lookup of its registered name.
    pub fn for_name(&self, name: &str, found: Lookup) -> (r: Option<KeyPress>)
        ensures
            r == self.name_press(name@, found),
    {
        match self.for_single(name) {
            Some(p) => Some(p),
            None => self.for_symbol(found),
        }
    }

    /// Resolve a modifier name to its keycode.
    pub fn modifier(name: &str) -> (r: Option<u32>)
        ensures
            r == modifier_code(name@),
    {
        let l = to_lower(name);
        if same(&l, "ctrl") || same(&l, "control") {
            Some(KEY_LEFTCTRL + 8)
        } else if same(&l, "shift") {
            Some(KEY_LEFTSHIFT + 8)
        } else if same(&l, "alt") {
            Some(KEY_LEFTALT + 8)
        } else if same(&l, "super") || same(&l, "meta") || same(&l, "win") || same(&l, "cmd")
            || same(&l, "logo") {
            Some(KEY_LEFTMETA + 8)
        } else {
            None
        }
    }

    /// The keycode of the Shift key.
    pub fn shift_keycode() -> (r: u32)
        ensures
            r == KEY_LEFTSHIFT + 8,
    {
        KEY_LEFTSHIFT + 8
    }

    /// The registered name that has to be looked up to resolve a combo. None
    /// if the combo is decided without: its last part is a single character
    /// that the keymap can type, or one of its modifiers is unknown.
    pub fn combo_to_look_up(&self, combo: &str) -> (r: Option<String>)
        ensures
            r is Some <==> modifier_codes(combo_parts(combo@).drop_last()) is Ok
                && self.single_press(combo_parts(combo@).last()) is None,
            r is Some ==> r->Some_0@ == canonical(combo_parts(combo@).last()),
    {
        let parts = parts_of(combo);
        let n = parts.len() - 1;
        proof {
            let all = crate::text::texts(parts@);
            assert(all.take(n as int) == all.drop_last());
            assert(all.last() == parts@[n as int]@);
        }
        match modifiers_of(&parts, n) {
            Ok(_) => self.name_to_look_up(&parts[n]),
            Err(_) => None,
        }
    }

    /// Parse a combo like "ctrl+shift+t" into (modifier keycodes, final key).
    /// `found` is the lookup of the registered name of its last part.
    pub fn parse_combo(&self, combo: &str, found: Lookup) -> (r: Result<
        (Vec<u32>, KeyPress),
        String,
    >)
        ensures
            match self.combo_press(combo@, found) {
                Ok((codes, press)) => r is Ok && r->Ok_0.0@ == codes && r->Ok_0.1 == press,
                Err(text) => r is Err && r->Err_0@ == text,
            },
    {
        let parts = parts_of(combo);
        let n = parts.len() - 1;
        proof {
            let all = crate::text::texts(parts@);
            assert(all.take(n as int) == all.drop_last());
            assert(all.last() == parts@[n as int]@);
        }
        match modifiers_of(&parts, n) {
            Err(at) => Err(unknown_part_text("unknown modifier ", &parts[at], combo)),
            Ok(codes) => match self.for_name(&parts[n], found) {
                Some(press) => Ok((codes, press)),
                None => Err(unknown_part_text("unknown key ", &parts[n], combo)),
            },
        }
    }
}

/// Law: a symbol is typed with the first key of the keymap that produces it,
/// and a symbol that no key produces is not typed.
pub proof fn law_first_key_wins(entries: Seq<KeyEntry>, keysym: u32)
    ensures
        match entry_of(keysym_table(entries), keysym) {
            Some(press) => exists|i: int|
                {
                    &&& 0 <= i < entries.len()
                    &&& (#[trigger] entries[i]).keysym == keysym
                    &&& entries[i].press == press
                    &&& forall|j: int| 0 <= j < i ==> (#[trigger] entries[j]).keysym != keysym
                },
            None => forall|i: int|
                0 <= i < entries.len() ==> (#[trigger] entries[i]).keysym != keysym,
        },
    decreases entries.len(),
{
    if entries.len() > 0 {
        let rest = entries.drop_last();
        law_first_key_wins(rest, keysym);
        match entry_of(keysym_table(rest), keysym) {
            Some(press) => {
                let i = choose|i: int|
                    {
                        &&& 0 <= i < rest.len()
                        &&& (#[trigger] rest[i]).keysym == keysym
                        &&& rest[i].press == press
                        &&& forall|j: int| 0 <= j < i ==> (#[trigger] rest[j]).keysym != keysym
                    };
                assert(entries[i] == rest[i]);
                assert forall|j: int| 0 <= j < i implies (#[trigger] entries[j]).keysym
                    != keysym by {
                    assert(rest[j].keysym != keysym);
                }
            },
            None => {
                assert forall|j: int| 0 <= j < rest.len() implies (#[trigger] entries[j]).keysym
                    != keysym by {
                    assert(rest[j].keysym != keysym);
                }
                assert(entries[entries.len() - 1] == entries.last());
            },
        }
    }
}

proof fn lemma_code_points_differ(c: char, d: char)
    ensures
        c as u32 == d as u32 <==> c == d,
{
    assert(c as u32 as int == c as int);
    assert(d as u32 as int == d as int);
}

/// Whether an entry of the keymap types this character.
pub open spec fn types(entry: KeyEntry, c: char) -> bool {
    keysym_char(entry.keysym) == Some(c)
}

/// Law: a character is typed with the first key of the keymap whose symbol
/// stands for it, and a character that no symbol stands for is not typed.
pub proof fn law_first_key_types_a_character(entries: Seq<KeyEntry>, c: char)
    ensures
        match entry_of(char_table(entries), c as u32) {
            Some(press) => exists|i: int|
                {
                    &&& 0 <= i < entries.len()
                    &&& types(#[trigger] entries[i], c)
                    &&& entries[i].press == press
                    &&& forall|j: int| 0 <= j < i ==> !types(#[trigger] entries[j], c)
                },
            None => forall|i: int| 0 <= i < entries.len() ==> !types(#[trigger] entries[i], c),
        },
    decreases entries.len(),
{
    if entries.len() > 0 {
        let rest = entries.drop_last();
        law_first_key_types_a_character(rest, c);
        match entry_of(char_table(rest), c as u32) {
            Some(press) => {
                let i = choose|i: int|
                    {
                        &&& 0 <= i < rest.len()
                        &&& types(#[trigger] rest[i], c)
                        &&& rest[i].press == press
                        &&& forall|j: int| 0 <= j < i ==> !types(#[trigger] rest[j], c)
                    };
                assert(entries[i] == rest[i]);
                assert forall|j: int| 0 <= j < i implies !types(#[trigger] entries[j], c) by {
                    assert(!types(rest[j], c));
                }
            },
            None => {
                assert forall|j: int| 0 <= j < rest.len() implies !types(
                    #[trigger] entries[j],
                    c,
                ) by {
                    assert(!types(rest[j], c));
                }
                assert(entries[entries.len() - 1] == entries.last());
                if let Some(d) = keysym_char(entries.last().keysym) {
                    lemma_code_points_differ(c, d);
                }
            },
        }
    }
}

/// Law: upper and lower case make no difference in the names of keys and
/// modifiers.
pub proof fn law_names_ignore_case(name: Seq<char>)
    ensures
        canonical(crate::text::lower(name)) == canonical(name),
        modifier_code(crate::text::lower(name)) == modifier_code(name),
{
    assert(crate::text::lower(crate::text::lower(name)) =~= crate::text::lower(name));
}

proof fn lemma_modifier_count(names: Seq<Seq<char>>)
    ensures
        modifier_codes(names) matches Ok(codes) ==> codes.len() == names.len(),
    decreases names.len(),
{
    if names.len() > 0 {
        lemma_modifier_count(names.drop_last());
    }
}

/// Law: a combo that is understood holds one modifier for each plus sign, not
/// counting the one that is the key itself.
pub proof fn law_one_modifier_per_plus_sign(keys: KeyMapper, combo: Seq<char>, found: Lookup)
    ensures
        keys.combo_press(combo, found) matches Ok((codes, _)) ==> codes.len()
            == crate::text::occurrences(combo, '+') - if names_plus(combo) {
            1int
        } else {
            0
        },
{
    crate::text::lemma_piece_count(combo, '+');
    lemma_modifier_count(combo_parts(combo).drop_last());
}

proof fn lemma_pieces_of_plus(text: Seq<char>)
    ensures
        crate::text::pieces(text.push('+').push('+'), '+') == crate::text::pieces(text, '+').push(
            Seq::empty(),
        ).push(Seq::empty()),
{
    let one = text.push('+');
    assert(one.drop_last() =~= text);
    assert(crate::text::pieces(one, '+') == crate::text::pieces(text, '+').push(Seq::empty()));
    assert(one.push('+').drop_last() =~= one);
}

proof fn lemma_trimmed_nothing()
    ensures
        crate::text::trimmed(Seq::empty()) == Seq::<char>::empty(),
{
}

/// Law: the plus sign is a key: a combo that is a plus sign presses it without
/// modifiers, and one that ends in two plus signs presses it with the modifiers
/// in front of these.
pub proof fn law_plus_sign_is_a_key(keys: KeyMapper, text: Seq<char>, found: Lookup)
    ensures
        combo_parts(seq!['+']) == seq!["+"@],
        keys.char_press('+') matches Some(press) ==> keys.combo_press(seq!['+'], found) == Ok::<
            (Seq<u32>, KeyPress),
            Seq<char>,
        >((Seq::empty(), press)),
        combo_parts(text.push('+').push('+')) == split_parts(text).push("+"@),
        keys.char_press('+') is Some && modifier_codes(split_parts(text)) is Ok
            ==> keys.combo_press(text.push('+').push('+'), found) == Ok::<
            (Seq<u32>, KeyPress),
            Seq<char>,
        >((modifier_codes(split_parts(text))->Ok_0, keys.char_press('+')->Some_0)),
{
    reveal_strlit("+");
    lemma_trimmed_nothing();
    let nothing = Seq::<char>::empty();
    // one plus sign
    let plus = seq!['+'];
    assert(plus.drop_last() =~= nothing);
    assert(crate::text::pieces(nothing, '+') == seq![nothing]);
    assert(crate::text::pieces(plus, '+') =~= seq![nothing, nothing]);
    assert(split_parts(plus) =~= seq![nothing, nothing]);
    assert(combo_parts(plus) =~= seq!["+"@]);
    assert(combo_parts(plus).drop_last() =~= Seq::<Seq<char>>::empty());
    assert("+"@ =~= seq!['+']);
    // two plus signs in the end
    let combo = text.push('+').push('+');
    let before = split_parts(text);
    lemma_pieces_of_plus(text);
    assert(split_parts(combo) =~= before.push(nothing).push(nothing));
    assert(combo_parts(combo) =~= before.push("+"@));
    assert(combo_parts(combo).drop_last() =~= before);
}

/// Law: a line break is typed with the key named "Return" and a tabulator with
/// the key named "Tab".
pub proof fn law_line_breaks_and_tabulators_are_named_keys(keys: KeyMapper)
    ensures
        keys.char_press('\n') == keys.name_press("Return"@, keys.line_break),
        keys.char_press('\r') == keys.name_press("Return"@, keys.line_break),
        keys.char_press('\t') == keys.name_press("Tab"@, keys.tabulator),
{
    reveal_strlit("Return");
    reveal_strlit("Tab");
}

/// The symbols that a key produces with or without Shift.
pub open spec fn symbols(row: KeyRow, shift: bool) -> Seq<u32> {
    if shift {
        row.shifted@
    } else {
        row.plain@
    }
}

/// Whether a key press produces a symbol that stands for this character.
pub open spec fn decodes_to(rows: Seq<KeyRow>, press: KeyPress, c: char) -> bool {
    exists|r: int, k: int|
        {
            &&& 0 <= r < rows.len()
            &&& rows[r].keycode == press.keycode
            &&& 0 <= k < symbols(rows[r], press.shift).len()
            &&& keysym_char(#[trigger] symbols(rows[r], press.shift)[k]) == Some(c)
        }
}

/// Where an entry of the keymap comes from.
proof fn lemma_entry_origin(rows: Seq<KeyRow>, i: int) -> (at: (int, int))
    requires
        0 <= i < keymap_entries(rows).len(),
    ensures
        0 <= at.0 < rows.len(),
        rows[at.0].keycode == keymap_entries(rows)[i].press.keycode,
        0 <= at.1 < symbols(rows[at.0], keymap_entries(rows)[i].press.shift).len(),
        symbols(rows[at.0], keymap_entries(rows)[i].press.shift)[at.1]
            == keymap_entries(rows)[i].keysym,
    decreases rows.len(),
{
    let before = keymap_entries(rows.drop_last());
    let row = rows.last();
    if i < before.len() {
        lemma_entry_origin(rows.drop_last(), i)
    } else {
        let plain = level_entries(row.keycode, false, row.plain@);
        let k = i - before.len();
        if k < plain.len() {
            (rows.len() - 1, k)
        } else {
            (rows.len() - 1, k - plain.len())
        }
    }
}

/// Law: what is pressed is what clients decode: the key press that types a
/// character produces, in the same keymap, a symbol that stands for it.
pub proof fn law_pressed_key_decodes_to_the_character(rows: Seq<KeyRow>, c: char)
    ensures
        entry_of(char_table(keymap_entries(rows)), c as u32) matches Some(press) ==> decodes_to(
            rows,
            press,
            c,
        ),
{
    let entries = keymap_entries(rows);
    law_first_key_types_a_character(entries, c);
    if let Some(press) = entry_of(char_table(entries), c as u32) {
        let i = choose|i: int|
            {
                &&& 0 <= i < entries.len()
                &&& types(#[trigger] entries[i], c)
                &&& entries[i].press == press
                &&& forall|j: int| 0 <= j < i ==> !types(#[trigger] entries[j], c)
            };
        let (r, k) = lemma_entry_origin(rows, i);
        assert(keysym_char(symbols(rows[r], press.shift)[k]) == Some(c));
    }
}

/// Law: a looked-up key is the one of exactly that name, and only where there is
/// none the one whose name differs in case; an unknown name has no key.
pub proof fn law_exact_names_come_first(keys: KeyMapper, found: Lookup)
    ensures
        found.exact != 0 ==> keys.symbol_press(found) == entry_of(keys.by_keysym@, found.exact),
        found.exact == 0 && found.folded != 0 ==> keys.symbol_press(found) == entry_of(
            keys.by_keysym@,
            found.folded,
        ),
        found.exact == 0 && found.folded == 0 ==> keys.symbol_press(found) is None,
{
}

/// Law: a line break is typed with the key of its symbol, so is a tabulator, and
/// every other character with the key that the keymap has for it.
pub proof fn law_characters_are_typed_with_their_key(keys: KeyMapper, c: char)
    ensures
        c == '\n' || c == '\r' ==> keys.char_press(c) == keys.symbol_press(keys.line_break),
        c == '\t' ==> keys.char_press(c) == keys.symbol_press(keys.tabulator),
        c != '\n' && c != '\r' && c != '\t' ==> {
            &&& keys.char_press(c) is Some <==> keys.by_char@.contains_key(c as u32)
            &&& keys.char_press(c) is Some ==> keys.char_press(c)->Some_0 == keys.by_char@[c as u32]
        },
{
}

/// Law: a key name of one character that can be typed is that character, and
/// every other name is the key that was looked up.
pub proof fn law_names_are_characters_or_looked_up(
    keys: KeyMapper,
    name: Seq<char>,
    found: Lookup,
)
    ensures
        name.len() == 1 && keys.char_press(name[0]) is Some ==> keys.name_press(name, found)
            == keys.char_press(name[0]) && keys.single_press(name) == keys.char_press(name[0]),
        !(name.len() == 1 && keys.char_press(name[0]) is Some) ==> keys.name_press(name, found)
            == keys.symbol_press(found) && keys.single_press(name) is None,
{
}

proof fn lemma_char_level(entries: Seq<KeyEntry>, keycode: u32, shift: bool, syms: Seq<u32>, c: char)
    ensures
        ({
            let before = entry_of(char_table(entries), c as u32);
            let after = entry_of(
                char_table(entries + level_entries(keycode, shift, syms)),
                c as u32,
            );
            &&& before is Some ==> after == before
            &&& before is None && (exists|k: int|
                0 <= k < syms.len() && keysym_char(#[trigger] syms[k]) == Some(c)) ==> after == Some(
                KeyPress { keycode, shift },
            )
            &&& before is None && !(exists|k: int|
                0 <= k < syms.len() && keysym_char(#[trigger] syms[k]) == Some(c)) ==> after is None
        }),
    decreases syms.len(),
{
    let level = level_entries(keycode, shift, syms);
    if syms.len() == 0 {
        assert(entries + level =~= entries);
    } else {
        let rest = syms.drop_last();
        lemma_char_level(entries, keycode, shift, rest, c);
        let all = entries + level;
        assert(all.drop_last() =~= entries + level_entries(keycode, shift, rest));
        let last = syms.last();
        assert(all.last() == (KeyEntry { keysym: last, press: KeyPress { keycode, shift } }));
        assert(syms[syms.len() - 1] == last);
        if let Some(d) = keysym_char(last) {
            lemma_code_points_differ(c, d);
        }
        if exists|k: int| 0 <= k < rest.len() && keysym_char(#[trigger] rest[k]) == Some(c) {
            let k = choose|k: int|
                0 <= k < rest.len() && keysym_char(#[trigger] rest[k]) == Some(c);
            assert(keysym_char(syms[k]) == Some(c));
        }
        if exists|k: int| 0 <= k < syms.len() && keysym_char(#[trigger] syms[k]) == Some(c) {
            let k = choose|k: int|
                0 <= k < syms.len() && keysym_char(#[trigger] syms[k]) == Some(c);
            if k < rest.len() {
                assert(keysym_char(rest[k]) == Some(c));
            }
        }
    }
}

proof fn lemma_symbol_level(
    entries: Seq<KeyEntry>,
    keycode: u32,
    shift: bool,
    syms: Seq<u32>,
    symbol: u32,
)
    ensures
        ({
            let before = entry_of(keysym_table(entries), symbol);
            let after = entry_of(
                keysym_table(entries + level_entries(keycode, shift, syms)),
                symbol,
            );
            &&& before is Some ==> after == before
            &&& before is None && syms.contains(symbol) ==> after == Some(
                KeyPress { keycode, shift },
            )
            &&& before is None && !syms.contains(symbol) ==> after is None
        }),
    decreases syms.len(),
{
    let level = level_entries(keycode, shift, syms);
    if syms.len() == 0 {
        assert(entries + level =~= entries);
    } else {
        let rest = syms.drop_last();
        lemma_symbol_level(entries, keycode, shift, rest, symbol);
        let all = entries + level;
        assert(all.drop_last() =~= entries + level_entries(keycode, shift, rest));
        let last = syms.last();
        assert(all.last() == (KeyEntry { keysym: last, press: KeyPress { keycode, shift } }));
        assert(syms[syms.len() - 1] == last);
        if rest.contains(symbol) {
            let k = rest.index_of(symbol);
            assert(syms[k] == symbol);
        }
        if syms.contains(symbol) {
            let k = syms.index_of(symbol);
            if k < rest.len() {
                assert(rest[k] == symbol);
            }
        }
    }
}

/// Law: one more key in the keymap changes nothing for characters and symbols
/// that have a key already. A new one is typed with that key: without Shift if
/// the key produces it so, else with Shift if it produces it with Shift.
pub proof fn law_one_more_key_adds_what_is_missing(
    rows: Seq<KeyRow>,
    row: KeyRow,
    c: char,
    symbol: u32,
)
    ensures
        entry_of(char_table(keymap_entries(Seq::empty())), c as u32) is None,
        entry_of(keysym_table(keymap_entries(Seq::empty())), symbol) is None,
        ({
            let before = entry_of(char_table(keymap_entries(rows)), c as u32);
            let after = entry_of(char_table(keymap_entries(rows.push(row))), c as u32);
            let plain = exists|k: int|
                0 <= k < row.plain@.len() && keysym_char(#[trigger] row.plain@[k]) == Some(c);
            let shifted = exists|k: int|
                0 <= k < row.shifted@.len() && keysym_char(#[trigger] row.shifted@[k]) == Some(c);
            &&& before is Some ==> after == before
            &&& before is None && plain ==> after == Some(
                KeyPress { keycode: row.keycode, shift: false },
            )
            &&& before is None && !plain && shifted ==> after == Some(
                KeyPress { keycode: row.keycode, shift: true },
            )
            &&& before is None && !plain && !shifted ==> after is None
        }),
        ({
            let before = entry_of(keysym_table(keymap_entries(rows)), symbol);
            let after = entry_of(keysym_table(keymap_entries(rows.push(row))), symbol);
            let plain = row.plain@.contains(symbol);
            let shifted = row.shifted@.contains(symbol);
            &&& before is Some ==> after == before
            &&& before is None && plain ==> after == Some(
                KeyPress { keycode: row.keycode, shift: false },
            )
            &&& before is None && !plain && shifted ==> after == Some(
                KeyPress { keycode: row.keycode, shift: true },
            )
            &&& before is None && !plain && !shifted ==> after is None
        }),
{
    let entries = keymap_entries(rows);
    let low = level_entries(row.keycode, false, row.plain@);
    let high = level_entries(row.keycode, true, row.shifted@);
    assert(rows.push(row).drop_last() =~= rows);
    assert(keymap_entries(rows.push(row)) =~= entries + low + high);
    lemma_char_level(entries, row.keycode, false, row.plain@, c);
    lemma_char_level(entries + low, row.keycode, true, row.shifted@, c);
    lemma_symbol_level(entries, row.keycode, false, row.plain@, symbol);
    lemma_symbol_level(entries + low, row.keycode, true, row.shifted@, symbol);
    assert(keymap_entries(Seq::<KeyRow>::empty()) =~= Seq::<KeyEntry>::empty());
}

/// Law: what a table holds for a key is found under that key alone.
pub proof fn law_tables_are_read_by_key(m: Map<u32, KeyPress>, k: u32)
    ensures
        m.contains_key(k) ==> entry_of(m, k) == Some(m[k]),
        !m.contains_key(k) ==> entry_of(m, k) is None,
{
}

/// Law: the modifiers are Control, Shift, Alt and Logo under their usual names,
/// in upper or lower case, each with the keycode of its left key. No other name
/// is one.
pub proof fn law_modifiers_have_these_names(name: Seq<char>)
    ensures
        ({
            let l = crate::text::lower(name);
            let control = l == "ctrl"@ || l == "control"@;
            let shift = l == "shift"@;
            let alt = l == "alt"@;
            let logo = l == "super"@ || l == "meta"@ || l == "win"@ || l == "cmd"@ || l == "logo"@;
            &&& control ==> modifier_code(name) == Some(37u32)
            &&& shift ==> modifier_code(name) == Some(50u32)
            &&& alt ==> modifier_code(name) == Some(64u32)
            &&& logo ==> modifier_code(name) == Some(133u32)
            &&& !control && !shift && !alt && !logo ==> modifier_code(name) is None
        }),
{
    reveal_strlit("ctrl");
    reveal_strlit("control");
    reveal_strlit("shift");
    reveal_strlit("alt");
    reveal_strlit("super");
    reveal_strlit("meta");
    reveal_strlit("win");
    reveal_strlit("cmd");
    reveal_strlit("logo");
    assert("ctrl"@.len() == 4 && "ctrl"@[0] == 'c' && "ctrl"@[1] == 't');
    assert("control"@.len() == 7 && "control"@[0] == 'c' && "control"@[1] == 'o');
    assert("shift"@.len() == 5 && "shift"@[0] == 's' && "shift"@[1] == 'h');
    assert("alt"@.len() == 3 && "alt"@[0] == 'a' && "alt"@[1] == 'l');
    assert("super"@.len() == 5 && "super"@[0] == 's' && "super"@[1] == 'u');
    assert("meta"@.len() == 4 && "meta"@[0] == 'm' && "meta"@[1] == 'e');
    assert("win"@.len() == 3 && "win"@[0] == 'w' && "win"@[1] == 'i');
    assert("cmd"@.len() == 3 && "cmd"@[0] == 'c' && "cmd"@[1] == 'm');
    assert("logo"@.len() == 4 && "logo"@[0] == 'l' && "logo"@[1] == 'o');
}

/// Law: common names of keys stand for the registered names, in upper or lower
/// case: each alias for its key.
pub proof fn law_aliases_stand_for_registered_names(name: Seq<char>)
    ensures
        ({
            let l = crate::text::lower(name);
            let known = canonical(name);
            &&& l == "enter"@ || l == "return"@ ==> known == "Return"@
            &&& l == "esc"@ || l == "escape"@ ==> known == "Escape"@
            &&& l == "space"@ ==> known == "space"@
            &&& l == "tab"@ ==> known == "Tab"@
            &&& l == "backspace"@ ==> known == "BackSpace"@
            &&& l == "delete"@ || l == "del"@ ==> known == "Delete"@
            &&& l == "insert"@ ==> known == "Insert"@
            &&& l == "home"@ ==> known == "Home"@
            &&& l == "end"@ ==> known == "End"@
            &&& l == "pageup"@ || l == "page_up"@ || l == "prior"@ ==> known == "Prior"@
            &&& l == "pagedown"@ || l == "page_down"@ || l == "next"@ ==> known == "Next"@
            &&& l == "up"@ ==> known == "Up"@
            &&& l == "down"@ ==> known == "Down"@
            &&& l == "left"@ ==> known == "Left"@
            &&& l == "right"@ ==> known == "Right"@
            &&& l == "menu"@ ==> known == "Menu"@
            &&& l == "printscreen"@ || l == "print"@ ==> known == "Print"@
        }),
{
    reveal_strlit("enter");
    reveal_strlit("return");
    reveal_strlit("esc");
    reveal_strlit("escape");
    reveal_strlit("space");
    reveal_strlit("tab");
    reveal_strlit("backspace");
    reveal_strlit("delete");
    reveal_strlit("del");
    reveal_strlit("insert");
    reveal_strlit("home");
    reveal_strlit("end");
    reveal_strlit("pageup");
    reveal_strlit("page_up");
    reveal_strlit("prior");
    reveal_strlit("pagedown");
    reveal_strlit("page_down");
    reveal_strlit("next");
    reveal_strlit("up");
    reveal_strlit("down");
    reveal_strlit("left");
    reveal_strlit("right");
    reveal_strlit("menu");
    reveal_strlit("printscreen");
    reveal_strlit("print");
    assert("enter"@.len() == 5 && "enter"@[0] == 'e' && "enter"@[1] == 'n');
    assert("return"@.len() == 6 && "return"@[0] == 'r' && "return"@[1] == 'e');
    assert("esc"@.len() == 3 && "esc"@[0] == 'e' && "esc"@[1] == 's');
    assert("escape"@.len() == 6 && "escape"@[0] == 'e' && "escape"@[1] == 's');
    assert("space"@.len() == 5 && "space"@[0] == 's' && "space"@[1] == 'p');
    assert("tab"@.len() == 3 && "tab"@[0] == 't' && "tab"@[1] == 'a');
    assert("backspace"@.len() == 9 && "backspace"@[0] == 'b' && "backspace"@[1] == 'a');
    assert("delete"@.len() == 6 && "delete"@[0] == 'd' && "delete"@[1] == 'e');
    assert("del"@.len() == 3 && "del"@[0] == 'd' && "del"@[1] == 'e');
    assert("insert"@.len() == 6 && "insert"@[0] == 'i' && "insert"@[1] == 'n');
    assert("home"@.len() == 4 && "home"@[0] == 'h' && "home"@[1] == 'o');
    assert("end"@.len() == 3 && "end"@[0] == 'e' && "end"@[1] == 'n');
    assert("pageup"@.len() == 6 && "pageup"@[0] == 'p' && "pageup"@[1] == 'a');
    assert("page_up"@.len() == 7 && "page_up"@[0] == 'p' && "page_up"@[1] == 'a');
    assert("prior"@.len() == 5 && "prior"@[0] == 'p' && "prior"@[1] == 'r');
    assert("pagedown"@.len() == 8 && "pagedown"@[0] == 'p' && "pagedown"@[1] == 'a');
    assert("page_down"@.len() == 9 && "page_down"@[0] == 'p' && "page_down"@[1] == 'a');
    assert("next"@.len() == 4 && "next"@[0] == 'n' && "next"@[1] == 'e');
    assert("up"@.len() == 2 && "up"@[0] == 'u' && "up"@[1] == 'p');
    assert("down"@.len() == 4 && "down"@[0] == 'd' && "down"@[1] == 'o');
    assert("left"@.len() == 4 && "left"@[0] == 'l' && "left"@[1] == 'e');
    assert("right"@.len() == 5 && "right"@[0] == 'r' && "right"@[1] == 'i');
    assert("menu"@.len() == 4 && "menu"@[0] == 'm' && "menu"@[1] == 'e');
    assert("printscreen"@.len() == 11 && "printscreen"@[0] == 'p' && "printscreen"@[1] == 'r');
    assert("print"@.len() == 5 && "print"@[0] == 'p' && "print"@[1] == 'r');
    assert("prior"@[3] == 'o' && "print"@[3] == 'n');
}

/// Law: every other name is looked up in lower case: the registered name is the
/// name in lower case, or differs from it because the name is an alias of one
/// of these keys.
pub proof fn law_other_names_are_looked_up_in_lower_case(name: Seq<char>)
    ensures
        ({
            let l = crate::text::lower(name);
            let known = canonical(name);
            known != l ==> {
                ||| known == "Return"@ && (l == "enter"@ || l == "return"@)
                ||| known == "Escape"@ && (l == "esc"@ || l == "escape"@)
                ||| known == "Tab"@ && l == "tab"@
                ||| known == "BackSpace"@ && l == "backspace"@
                ||| known == "Delete"@ && (l == "delete"@ || l == "del"@)
                ||| known == "Insert"@ && l == "insert"@
                ||| known == "Home"@ && l == "home"@
                ||| known == "End"@ && l == "end"@
                ||| known == "Prior"@ && (l == "pageup"@ || l == "page_up"@ || l == "prior"@)
                ||| known == "Next"@ && (l == "pagedown"@ || l == "page_down"@ || l == "next"@)
                ||| known == "Up"@ && l == "up"@
                ||| known == "Down"@ && l == "down"@
                ||| known == "Left"@ && l == "left"@
                ||| known == "Right"@ && l == "right"@
                ||| known == "Menu"@ && l == "menu"@
                ||| known == "Print"@ && (l == "printscreen"@ || l == "print"@)
            }
        }),
{
}

/// Law: names are modifiers, one code each in their order, unless one of them is
/// none; then the first such name is the reason.
pub proof fn law_modifiers_are_resolved_in_order(names: Seq<Seq<char>>, k: int)
    ensures
        match modifier_codes(names) {
            Ok(codes) => {
                &&& codes.len() == names.len()
                &&& 0 <= k < names.len() ==> modifier_code(names[k]) == Some(codes[k])
            },
            Err(bad) => exists|i: int|
                {
                    &&& 0 <= i < names.len()
                    &&& #[trigger] names[i] == bad
                    &&& modifier_code(names[i]) is None
                    &&& forall|j: int|
                        0 <= j < i ==> modifier_code(#[trigger] names[j]) is Some
                },
        },
    decreases names.len(),
{
    if names.len() > 0 {
        let rest = names.drop_last();
        law_modifiers_are_resolved_in_order(rest, k);
        match modifier_codes(rest) {
            Ok(codes) => {
                if modifier_code(names.last()) is None {
                    let n = names.len() - 1;
                    assert(names[n] == names.last());
                    assert forall|j: int| 0 <= j < n implies modifier_code(
                        #[trigger] names[j],
                    ) is Some by {
                        law_modifiers_are_resolved_in_order(rest, j);
                        assert(rest[j] == names[j]);
                    }
                }
            },
            Err(bad) => {
                let i = choose|i: int|
                    {
                        &&& 0 <= i < rest.len()
                        &&& #[trigger] rest[i] == bad
                        &&& modifier_code(rest[i]) is None
                        &&& forall|j: int|
                            0 <= j < i ==> modifier_code(#[trigger] rest[j]) is Some
                    };
                assert(names[i] == rest[i]);
                assert forall|j: int| 0 <= j < i implies modifier_code(#[trigger] names[j]) is Some by {
                    assert(modifier_code(rest[j]) is Some);
                }
            },
        }
    }
}

proof fn lemma_parts_in_front(m: Seq<char>, rest: Seq<char>)
    requires
        !m.contains('+'),
        crate::text::trimmed(m).len() > 0,
    ensures
        combo_parts(m.push('+') + rest) == seq![crate::text::trimmed(m)] + combo_parts(rest),
        combo_parts(m) == seq![crate::text::trimmed(m)],
        combo_parts(rest).len() >= 1,
{
    crate::text::law_pieces_lie_between_separators(m, rest, '+');
    crate::text::law_pieces_lie_between_separators(rest, Seq::empty(), '+');
    let all = split_parts(m.push('+') + rest);
    let behind = split_parts(rest);
    let name = crate::text::trimmed(m);
    assert(split_parts(m) =~= seq![name]);
    assert(all =~= seq![name] + behind);
    if names_plus(rest) {
        assert(combo_parts(m.push('+') + rest) =~= seq![name] + combo_parts(rest));
    }
}

proof fn lemma_codes_in_front(name: Seq<char>, names: Seq<Seq<char>>)
    ensures
        modifier_codes(seq![name] + names) == match modifier_code(name) {
            None => Err(name),
            Some(code) => match modifier_codes(names) {
                Ok(codes) => Ok(seq![code] + codes),
                Err(bad) => Err(bad),
            },
        },
    decreases names.len(),
{
    let all = seq![name] + names;
    if names.len() == 0 {
        assert(all.drop_last() =~= Seq::<Seq<char>>::empty());
        if let Some(code) = modifier_code(name) {
            assert(modifier_codes(all.drop_last()) == Ok::<Seq<u32>, Seq<char>>(Seq::empty()));
            assert(Seq::<u32>::empty().push(code) =~= seq![code] + Seq::<u32>::empty());
        }
    } else {
        lemma_codes_in_front(name, names.drop_last());
        assert(all.drop_last() =~= seq![name] + names.drop_last());
        assert(all.last() == names.last());
        if let (Some(code), Ok(codes), Some(last)) = (
            modifier_code(name),
            modifier_codes(names.drop_last()),
            modifier_code(names.last()),
        ) {
            assert((seq![code] + codes).push(last) =~= seq![code] + codes.push(last));
        }
    }
}

/// Law: a combo without a plus sign is the key of that name, without white space
/// around it.
pub proof fn law_combo_without_plus_is_a_key(keys: KeyMapper, name: Seq<char>, found: Lookup)
    requires
        !name.contains('+'),
    ensures
        combo_parts(name) == seq![crate::text::trimmed(name)],
        keys.combo_press(name, found) == match keys.name_press(crate::text::trimmed(name), found) {
            Some(press) => Ok((Seq::<u32>::empty(), press)),
            None => Err(
                "unknown key "@ + crate::text::str_debug(crate::text::trimmed(name)) + " in "@
                    + crate::text::str_debug(name),
            ),
        },
{
    crate::text::law_pieces_lie_between_separators(name, Seq::empty(), '+');
    let parts = combo_parts(name);
    assert(parts =~= seq![crate::text::trimmed(name)]);
    assert(parts.drop_last() =~= Seq::<Seq<char>>::empty());
}

/// Law: a modifier and a plus sign in front of a combo hold that modifier in
/// addition, before the others, and leave its key as it is; a name that is no
/// modifier makes the combo refused.
pub proof fn law_modifier_in_front_is_held_in_addition(
    keys: KeyMapper,
    name: Seq<char>,
    combo: Seq<char>,
    found: Lookup,
)
    requires
        !name.contains('+'),
        crate::text::trimmed(name).len() > 0,
    ensures
        ({
            let longer = name.push('+') + combo;
            let modifier = crate::text::trimmed(name);
            &&& combo_parts(longer) == seq![modifier] + combo_parts(combo)
            &&& match modifier_code(modifier) {
                Some(code) => match keys.combo_press(combo, found) {
                    Ok((codes, press)) => keys.combo_press(longer, found) == Ok::<
                        (Seq<u32>, KeyPress),
                        Seq<char>,
                    >((seq![code] + codes, press)),
                    Err(_) => keys.combo_press(longer, found) is Err,
                },
                None => keys.combo_press(longer, found) == Err::<(Seq<u32>, KeyPress), Seq<char>>(
                    "unknown modifier "@ + crate::text::str_debug(modifier) + " in "@
                        + crate::text::str_debug(longer),
                ),
            }
        }),
{
    lemma_parts_in_front(name, combo);
    let modifier = crate::text::trimmed(name);
    let parts = combo_parts(combo);
    let all = combo_parts(name.push('+') + combo);
    assert(all.drop_last() =~= seq![modifier] + parts.drop_last());
    assert(all.last() == parts.last());
    lemma_codes_in_front(modifier, parts.drop_last());
}

/// Law: a combo is refused exactly if a part in front of the last is no modifier
/// or the last part is no key; the refusal names the first such part and the
/// combo.
pub proof fn law_refused_combos_say_why(keys: KeyMapper, combo: Seq<char>, found: Lookup)
    ensures
        ({
            let parts = combo_parts(combo);
            let key = parts[parts.len() - 1];
            match modifier_codes(parts.take(parts.len() - 1)) {
                Err(bad) => keys.combo_press(combo, found) == Err::<
                    (Seq<u32>, KeyPress),
                    Seq<char>,
                >(
                    "unknown modifier "@ + crate::text::str_debug(bad) + " in "@
                        + crate::text::str_debug(combo),
                ),
                Ok(codes) => match keys.name_press(key, found) {
                    Some(press) => keys.combo_press(combo, found) == Ok::<
                        (Seq<u32>, KeyPress),
                        Seq<char>,
                    >((codes, press)),
                    None => keys.combo_press(combo, found) == Err::<
                        (Seq<u32>, KeyPress),
                        Seq<char>,
                    >(
                        "unknown key "@ + crate::text::str_debug(key) + " in "@
                            + crate::text::str_debug(combo),
                    ),
                },
            }
        }),
{
    let parts = combo_parts(combo);
    crate::text::law_pieces_lie_between_separators(combo, Seq::empty(), '+');
    assert(parts.drop_last() =~= parts.take(parts.len() - 1));
}

/// Law: the last part of a combo is its key: a character that can be typed is
/// pressed as it is typed, whatever the modifiers in front of it.
pub proof fn law_key_of_a_combo_is_its_last_part(
    keys: KeyMapper,
    modifiers: Seq<char>,
    c: char,
    found: Lookup,
)
    requires
        c != '+',
        crate::text::trimmed(seq![c]) == seq![c],
        keys.char_press(c) is Some,
    ensures
        keys.combo_press(modifiers.push('+').push(c), found) matches Ok((codes, press)) ==> press
            == keys.char_press(c)->Some_0,
        modifier_codes(split_parts(modifiers)) matches Ok(codes) ==> keys.combo_press(
            modifiers.push('+').push(c),
            found,
        ) == Ok::<(Seq<u32>, KeyPress), Seq<char>>((codes, keys.char_press(c)->Some_0)),
{
    let combo = modifiers.push('+').push(c);
    let one = seq![c];
    assert(!one.contains('+'));
    assert(combo =~= modifiers.push('+') + one);
    crate::text::law_pieces_lie_between_separators(one, Seq::empty(), '+');
    crate::text::law_pieces_lie_between_separators(modifiers, one, '+');
    assert(split_parts(one) =~= seq![one]);
    assert(split_parts(combo) =~= split_parts(modifiers).push(one));
    assert(combo_parts(combo) =~= split_parts(modifiers).push(one));
    assert(combo_parts(combo).drop_last() =~= split_parts(modifiers));
}

/// Law: a combo mentions Shift exactly if the word stands somewhere in it, in
/// upper or lower case.
pub proof fn law_shift_is_found_in_any_case(combo: Seq<char>)
    ensures
        mentions_shift(combo) <==> exists|at: int|
            {
                &&& 0 <= at
                &&& at + 5 <= combo.len()
                &&& (#[trigger] combo[at] == 's' || combo[at] == 'S')
                &&& (combo[at + 1] == 'h' || combo[at + 1] == 'H')
                &&& (combo[at + 2] == 'i' || combo[at + 2] == 'I')
                &&& (combo[at + 3] == 'f' || combo[at + 3] == 'F')
                &&& (combo[at + 4] == 't' || combo[at + 4] == 'T')
            },
{
    reveal_strlit("shift");
    let l = crate::text::lower(combo);
    let s = "shift"@;
    if mentions_shift(combo) {
        let at = choose|at: int| crate::text::occurs_at(l, s, at);
        let part = l.subrange(at, at + 5);
        assert(part[0] == s[0] && part[1] == s[1] && part[2] == s[2] && part[3] == s[3] && part[4]
            == s[4]);
        assert(l[at] == 's' && l[at + 1] == 'h' && l[at + 2] == 'i' && l[at + 3] == 'f' && l[at + 4]
            == 't');
        assert(combo[at] == 's' || combo[at] == 'S');
    }
    if exists|at: int|
        {
            &&& 0 <= at
            &&& at + 5 <= combo.len()
            &&& (#[trigger] combo[at] == 's' || combo[at] == 'S')
            &&& (combo[at + 1] == 'h' || combo[at + 1] == 'H')
            &&& (combo[at + 2] == 'i' || combo[at + 2] == 'I')
            &&& (combo[at + 3] == 'f' || combo[at + 3] == 'F')
            &&& (combo[at + 4] == 't' || combo[at + 4] == 'T')
        } {
        let at = choose|at: int|
            {
                &&& 0 <= at
                &&& at + 5 <= combo.len()
                &&& (#[trigger] combo[at] == 's' || combo[at] == 'S')
                &&& (combo[at + 1] == 'h' || combo[at + 1] == 'H')
                &&& (combo[at + 2] == 'i' || combo[at + 2] == 'I')
                &&& (combo[at + 3] == 'f' || combo[at + 3] == 'F')
                &&& (combo[at + 4] == 't' || combo[at + 4] == 'T')
            };
        assert(l.subrange(at, at + 5) =~= s);
        assert(crate::text::occurs_at(l, s, at));
    }
}

/// Law: nothing in front of a plus sign is a part without a name, which no
/// modifier has, unless nothing follows either: then the plus sign is the key.
pub proof fn law_nothing_in_front_of_a_plus_sign(name: Seq<char>, combo: Seq<char>)
    requires
        !name.contains('+'),
        crate::text::trimmed(name).len() == 0,
    ensures
        !combo.contains('+') && crate::text::trimmed(combo).len() == 0 ==> combo_parts(
            name.push('+') + combo,
        ) == seq![seq!['+']],
        combo.contains('+') || crate::text::trimmed(combo).len() > 0 ==> combo_parts(
            name.push('+') + combo,
        ) == seq![Seq::<char>::empty()] + combo_parts(combo),
        modifier_code(Seq::empty()) is None,
{
    crate::text::law_pieces_lie_between_separators(name, combo, '+');
    crate::text::law_pieces_lie_between_separators(combo, Seq::empty(), '+');
    reveal_strlit("+");
    let all = split_parts(name.push('+') + combo);
    let behind = split_parts(combo);
    let nothing = Seq::<char>::empty();
    assert(crate::text::trimmed(name) =~= nothing);
    assert(split_parts(name) =~= seq![nothing]);
    assert(all =~= seq![nothing] + behind);
    assert("+"@ =~= seq!['+']);
    if !combo.contains('+') {
        assert(behind =~= seq![crate::text::trimmed(combo)]);
        if crate::text::trimmed(combo).len() == 0 {
            assert(combo_parts(name.push('+') + combo) =~= seq![seq!['+']]);
        }
    } else {
        lemma_two_pieces(combo);
        if names_plus(combo) {
            assert(combo_parts(name.push('+') + combo) =~= seq![nothing] + combo_parts(combo));
        }
    }
    law_modifiers_have_these_names(nothing);
    assert(crate::text::lower(nothing) =~= nothing);
    reveal_strlit("ctrl");
    reveal_strlit("control");
    reveal_strlit("shift");
    reveal_strlit("alt");
    reveal_strlit("super");
    reveal_strlit("meta");
    reveal_strlit("win");
    reveal_strlit("cmd");
    reveal_strlit("logo");
}

proof fn lemma_two_pieces(combo: Seq<char>)
    requires
        combo.contains('+'),
    ensures
        crate::text::pieces(combo, '+').len() >= 2,
{
    let i = combo.index_of('+');
    let a = combo.take(i);
    let b = combo.skip(i + 1);
    assert(combo =~= a.push('+') + b);
    crate::text::law_pieces_lie_between_separators(a, b, '+');
    crate::text::law_pieces_lie_between_separators(b, Seq::empty(), '+');
}

} // verus!
