//! Key/value sections of `nps.conf` and `npc.conf`, and the typed lookups
//! the configuration loaders make in them.
use vstd::prelude::*;
use crate::model::{pairs_view, strings_of, strings_view};
use crate::text::{
    chars_of, eq, find_char, find_char_exec, lines, lines_exec, lower, lower_vec, parse_uint,
    parse_uint_exec, replace_char, replace_char_exec, slice, split_once, split_once_exec,
    string_of, trim, trim_vec, trimmed_nonempty, trimmed_nonempty_exec, views,
};

verus! {

/// A section as a list of key/value pairs with distinct keys, in the order
/// in which the keys first appeared.
pub type KvView = Seq<(Seq<char>, Seq<char>)>;

/// Position of `k` in `m`.
pub open spec fn kv_index(m: KvView, k: Seq<char>) -> Option<int>
    decreases m.len(),
{
    if m.len() == 0 {
        None
    } else if m[0].0 == k {
        Some(0)
    } else {
        match kv_index(m.drop_first(), k) {
            Some(i) => Some(i + 1),
            None => None,
        }
    }
}

/// The value of `k` in `m`.
pub open spec fn kv_get(m: KvView, k: Seq<char>) -> Option<Seq<char>> {
    match kv_index(m, k) {
        Some(i) => Some(m[i].1),
        None => None,
    }
}

/// `m` with `k` set to `v`: an existing key keeps its place.
pub open spec fn kv_insert(m: KvView, k: Seq<char>, v: Seq<char>) -> KvView {
    match kv_index(m, k) {
        Some(i) => m.update(i, (k, v)),
        None => m.push((k, v)),
    }
}

/// `m` without `k`.
pub open spec fn kv_remove(m: KvView, k: Seq<char>) -> KvView {
    match kv_index(m, k) {
        Some(i) => m.remove(i),
        None => m,
    }
}

/// The value of `k`, or `d`.
pub open spec fn kv_string(m: KvView, k: Seq<char>, d: Seq<char>) -> Seq<char> {
    match kv_get(m, k) {
        Some(v) => v,
        None => d,
    }
}

/// The value of the first key of `keys` that `m` holds.
pub open spec fn kv_first(m: KvView, keys: Seq<Seq<char>>) -> Option<Seq<char>>
    decreases keys.len(),
{
    if keys.len() == 0 {
        None
    } else {
        match kv_get(m, keys[0]) {
            Some(v) => Some(v),
            None => kv_first(m, keys.drop_first()),
        }
    }
}

/// The words that count as `true`: `1`, `true`, `yes`, `on`.
pub open spec fn is_truthy(v: Seq<char>) -> bool {
    v == "1"@ || v == "true"@ || v == "yes"@ || v == "on"@
}

/// A flag: the value trimmed and lowercased is one of the true words.
pub open spec fn flag_value(v: Seq<char>) -> bool {
    is_truthy(lower(trim(v)))
}

/// The flag `k`, or `d`.
pub open spec fn kv_bool(m: KvView, k: Seq<char>, d: bool) -> bool {
    match kv_get(m, k) {
        Some(v) => flag_value(v),
        None => d,
    }
}

/// The number `k` parsed (trimmed) against `max`, or `d` when absent or not
/// a number.
pub open spec fn kv_uint(m: KvView, k: Seq<char>, max: nat, d: nat) -> nat {
    match kv_get(m, k) {
        Some(v) => match parse_uint(trim(v), max) {
            Some(n) => n,
            None => d,
        },
        None => d,
    }
}

/// The items of a list value: commas and newlines separate, items are
/// trimmed, empty items dropped.
pub open spec fn list_items(v: Seq<char>) -> Seq<Seq<char>> {
    trimmed_nonempty(lines(replace_char(v, ',', '\n')))
}

impl SectionMap {
    /// Removes a key.
    pub fn remove(&mut self, key: &str)
        ensures
            final(self)@ == kv_remove(old(self)@, key@),
    {
        let k = chars_of(key);
        match self.index_of(&k) {
            Some(i) => {
                self.entries.remove(i);
                assert(self@ =~= kv_remove(old(self)@, key@));
            },
            None => {},
        }
    }
}

/// The part of a line before the first `#` or `;`.
pub open spec fn strip_comment(line: Seq<char>) -> Seq<char> {
    match (find_char(line, '#'), find_char(line, ';')) {
        (Some(a), Some(b)) => line.subrange(0, if a < b { a } else { b }),
        (Some(a), None) => line.subrange(0, a),
        (None, Some(b)) => line.subrange(0, b),
        (None, None) => line,
    }
}

/// A `key = value` line: the key is not empty after trimming.
pub open spec fn parse_kv_line(line: Seq<char>) -> Option<(Seq<char>, Seq<char>)> {
    match split_once(strip_comment(line), '=') {
        Some((k, v)) => if trim(k).len() > 0 {
            Some((trim(k), trim(v)))
        } else {
            None
        },
        None => None,
    }
}

/// The pairs of the given lines, later keys overwriting earlier ones.
pub open spec fn plain_kv(ls: Seq<Seq<char>>) -> KvView
    decreases ls.len(),
{
    if ls.len() == 0 {
        Seq::empty()
    } else {
        let m = plain_kv(ls.drop_last());
        match parse_kv_line(ls.last()) {
            Some((k, v)) => kv_insert(m, k, v),
            None => m,
        }
    }
}

pub open spec fn strip_leading(s: Seq<char>, c: char) -> Seq<char>
    decreases s.len(),
{
    if s.len() > 0 && s[0] == c {
        strip_leading(s.drop_first(), c)
    } else {
        s
    }
}

pub open spec fn strip_trailing(s: Seq<char>, c: char) -> Seq<char>
    decreases s.len(),
{
    if s.len() > 0 && s.last() == c {
        strip_trailing(s.drop_last(), c)
    } else {
        s
    }
}

/// A line that opens a section: `[name]`.
pub open spec fn is_section_header(t: Seq<char>) -> bool {
    t.len() > 0 && t[0] == '[' && t.last() == ']'
}

/// The name in a section header.
pub open spec fn header_name(t: Seq<char>) -> Seq<char> {
    trim(strip_trailing(strip_leading(t, '['), ']'))
}

pub struct IniScan {
    pub sections: Seq<(Seq<char>, KvView)>,
    pub name: Seq<char>,
    pub map: KvView,
}

/// State of the section scanner after the given lines: the sections closed
/// so far, the name of the open section and its pairs.
pub open spec fn ini_scan(ls: Seq<Seq<char>>) -> IniScan
    decreases ls.len(),
{
    if ls.len() == 0 {
        IniScan { sections: Seq::empty(), name: Seq::empty(), map: Seq::empty() }
    } else {
        let st = ini_scan(ls.drop_last());
        let t = trim(strip_comment(ls.last()));
        if t.len() == 0 {
            st
        } else if is_section_header(t) {
            if st.name.len() > 0 {
                IniScan {
                    sections: st.sections.push((st.name, st.map)),
                    name: header_name(t),
                    map: Seq::empty(),
                }
            } else {
                IniScan { sections: st.sections, name: header_name(t), map: st.map }
            }
        } else {
            match parse_kv_line(t) {
                Some((k, v)) => IniScan {
                    sections: st.sections,
                    name: st.name,
                    map: kv_insert(st.map, k, v),
                },
                None => st,
            }
        }
    }
}

/// The named sections of an INI text, in order; pairs before the first
/// header belong to the first section.
pub open spec fn ini_sections(raw: Seq<char>) -> Seq<(Seq<char>, KvView)> {
    let st = ini_scan(lines(raw));
    if st.name.len() > 0 {
        st.sections.push((st.name, st.map))
    } else {
        st.sections
    }
}

// ---------------------------------------------------------------------------
// Lemmas
// ---------------------------------------------------------------------------

pub proof fn lemma_kv_index_props(m: KvView, k: Seq<char>)
    ensures
        match kv_index(m, k) {
            Some(i) => 0 <= i < m.len() && m[i].0 == k && forall|j: int|
                0 <= j < i ==> m[j].0 != k,
            None => forall|j: int| 0 <= j < m.len() ==> m[j].0 != k,
        },
    decreases m.len(),
{
    if m.len() > 0 {
        lemma_kv_index_props(m.drop_first(), k);
        if m[0].0 != k {
            assert forall|j: int| 0 < j < m.len() implies m[j] == m.drop_first()[j - 1] by {}
        }
    }
}

pub proof fn lemma_kv_index_at(m: KvView, k: Seq<char>, i: int)
    requires
        0 <= i < m.len(),
        m[i].0 == k,
        forall|j: int| 0 <= j < i ==> m[j].0 != k,
    ensures
        kv_index(m, k) == Some(i),
    decreases m.len(),
{
    if i > 0 {
        lemma_kv_index_at(m.drop_first(), k, i - 1);
    }
}

pub proof fn lemma_kv_index_none(m: KvView, k: Seq<char>)
    requires
        forall|j: int| 0 <= j < m.len() ==> m[j].0 != k,
    ensures
        kv_index(m, k) is None,
    decreases m.len(),
{
    if m.len() > 0 {
        lemma_kv_index_none(m.drop_first(), k);
    }
}

/// After setting a key, looking it up gives the value set, and every other
/// key keeps its value.
pub proof fn lemma_kv_insert_get(m: KvView, k: Seq<char>, v: Seq<char>, other: Seq<char>)
    ensures
        kv_get(kv_insert(m, k, v), k) == Some(v),
        other != k ==> kv_get(kv_insert(m, k, v), other) == kv_get(m, other),
{
    lemma_kv_index_props(m, k);
    lemma_kv_index_props(m, other);
    let n = kv_insert(m, k, v);
    match kv_index(m, k) {
        Some(i) => {
            lemma_kv_index_at(n, k, i);
            if other != k {
                match kv_index(m, other) {
                    Some(j) => lemma_kv_index_at(n, other, j),
                    None => lemma_kv_index_none(n, other),
                }
            }
        },
        None => {
            lemma_kv_index_at(n, k, m.len() as int);
            if other != k {
                match kv_index(m, other) {
                    Some(j) => lemma_kv_index_at(n, other, j),
                    None => lemma_kv_index_none(n, other),
                }
            }
        },
    }
}

// ---------------------------------------------------------------------------
// Executable
// ---------------------------------------------------------------------------

/// A configuration section: key/value pairs with distinct keys.
#[derive(Debug)]
pub struct SectionMap {
    pub entries: Vec<(String, String)>,
}

impl View for SectionMap {
    type V = KvView;

    open spec fn view(&self) -> KvView {
        pairs_view(self.entries@)
    }
}

impl SectionMap {
    pub fn new() -> (r: Self)
        ensures
            r@ == Seq::<(Seq<char>, Seq<char>)>::empty(),
    {
        let r = SectionMap { entries: Vec::new() };
        assert(r@ =~= Seq::<(Seq<char>, Seq<char>)>::empty());
        r
    }

    /// Position of a key.
    pub fn index_of(&self, key: &Vec<char>) -> (r: Option<usize>)
        ensures
            match r {
                Some(i) => kv_index(self@, key@) == Some(i as int) && i < self.entries@.len(),
                None => kv_index(self@, key@) is None,
            },
    {
        let mut i: usize = 0;
        while i < self.entries.len()
            invariant
                i <= self.entries.len(),
                forall|j: int| 0 <= j < i ==> self@[j].0 != key@,
            decreases self.entries.len() - i,
        {
            let k = chars_of(self.entries[i].0.as_str());
            if eq(&k, key) {
                proof {
                    lemma_kv_index_at(self@, key@, i as int);
                }
                return Some(i);
            }
            i += 1;
        }
        proof {
            lemma_kv_index_none(self@, key@);
        }
        None
    }

    /// The value of a key.
    pub fn get(&self, key: &Vec<char>) -> (r: Option<String>)
        ensures
            match r {
                Some(v) => kv_get(self@, key@) == Some(v@),
                None => kv_get(self@, key@) is None,
            },
    {
        match self.index_of(key) {
            Some(i) => Some(self.entries[i].1.clone()),
            None => None,
        }
    }

    /// The value of a key given as a string slice.
    pub fn get_str(&self, key: &str) -> (r: Option<String>)
        ensures
            match r {
                Some(v) => kv_get(self@, key@) == Some(v@),
                None => kv_get(self@, key@) is None,
            },
    {
        let k = chars_of(key);
        self.get(&k)
    }

    /// Whether the section holds a key.
    pub fn contains_key(&self, key: &str) -> (r: bool)
        ensures
            r == kv_get(self@, key@) is Some,
    {
        let k = chars_of(key);
        self.index_of(&k).is_some()
    }

    /// Sets a key; an existing key keeps its place.
    pub fn insert(&mut self, key: &Vec<char>, value: &Vec<char>)
        ensures
            final(self)@ == kv_insert(old(self)@, key@, value@),
    {
        let k = string_of(key);
        let v = string_of(value);
        match self.index_of(key) {
            Some(i) => {
                self.entries.set(i, (k, v));
                assert(self@ =~= kv_insert(old(self)@, key@, value@));
            },
            None => {
                self.entries.push((k, v));
                assert(self@ =~= kv_insert(old(self)@, key@, value@));
            },
        }
    }
}

/// The part of a line before the first `#` or `;`.
pub fn strip_comment_exec(line: &Vec<char>) -> (r: Vec<char>)
    ensures
        r@ == strip_comment(line@),
{
    let hash = find_char_exec(line, '#');
    let semi = find_char_exec(line, ';');
    proof {
        crate::text::lemma_find_char_props(line@, '#');
        crate::text::lemma_find_char_props(line@, ';');
    }
    match (hash, semi) {
        (Some(a), Some(b)) => slice(
            line,
            0,
            if a < b {
                a
            } else {
                b
            },
        ),
        (Some(a), None) => slice(line, 0, a),
        (None, Some(b)) => slice(line, 0, b),
        (None, None) => slice(line, 0, line.len()),
    }
}

/// A `key = value` line, key and value trimmed; `None` when there is no
/// `=` or the key is empty.
pub fn parse_kv_line_exec(line: &Vec<char>) -> (r: Option<(Vec<char>, Vec<char>)>)
    ensures
        match r {
            Some((k, v)) => parse_kv_line(line@) == Some((k@, v@)),
            None => parse_kv_line(line@) is None,
        },
{
    let clean = strip_comment_exec(line);
    match split_once_exec(&clean, '=') {
        Some((k, v)) => {
            let key = trim_vec(&k);
            if key.len() == 0 {
                return None;
            }
            Some((key, trim_vec(&v)))
        },
        None => None,
    }
}

/// The pairs of a plain `key=value` text, later keys overwriting earlier
/// ones.
pub fn parse_plain_kv(raw: &Vec<char>) -> (r: SectionMap)
    ensures
        r@ == plain_kv(lines(raw@)),
{
    let ls = lines_exec(raw);
    let ghost lv = views(ls@);
    let mut map = SectionMap::new();
    let mut i: usize = 0;
    while i < ls.len()
        invariant
            lv == views(ls@),
            lv == lines(raw@),
            i <= ls.len(),
            map@ == plain_kv(lv.take(i as int)),
        decreases ls.len() - i,
    {
        assert(lv.take(i + 1).drop_last() == lv.take(i as int));
        if let Some((k, v)) = parse_kv_line_exec(&ls[i]) {
            map.insert(&k, &v);
        }
        i += 1;
    }
    assert(lv.take(ls.len() as int) == lv);
    map
}

fn strip_leading_exec(s: &Vec<char>, c: char) -> (r: Vec<char>)
    ensures
        r@ == strip_leading(s@, c),
{
    let mut i: usize = 0;
    assert(s@.subrange(0, s@.len() as int) == s@);
    while i < s.len() && s[i] == c
        invariant
            i <= s.len(),
            strip_leading(s@, c) == strip_leading(s@.subrange(i as int, s@.len() as int), c),
        decreases s.len() - i,
    {
        assert(s@.subrange(i as int, s@.len() as int).drop_first() == s@.subrange(
            i + 1,
            s@.len() as int,
        ));
        i += 1;
    }
    slice(s, i, s.len())
}

fn strip_trailing_exec(s: &Vec<char>, c: char) -> (r: Vec<char>)
    ensures
        r@ == strip_trailing(s@, c),
{
    let mut j: usize = s.len();
    assert(s@.subrange(0, s@.len() as int) == s@);
    while j > 0 && s[j - 1] == c
        invariant
            j <= s.len(),
            strip_trailing(s@, c) == strip_trailing(s@.subrange(0, j as int), c),
        decreases j,
    {
        assert(s@.subrange(0, j as int).drop_last() == s@.subrange(0, j - 1));
        j -= 1;
    }
    slice(s, 0, j)
}

pub open spec fn sections_view(v: Seq<(String, SectionMap)>) -> Seq<(Seq<char>, KvView)> {
    Seq::new(v.len(), |i: int| (v[i].0@, v[i].1@))
}

/// The named sections of an INI text, in order.
pub fn parse_ini_sections(raw: &Vec<char>) -> (r: Vec<(String, SectionMap)>)
    ensures
        sections_view(r@) == ini_sections(raw@),
{
    let ls = lines_exec(raw);
    let ghost lv = views(ls@);
    let mut sections: Vec<(String, SectionMap)> = Vec::new();
    let mut name: Vec<char> = Vec::new();
    let mut map = SectionMap::new();
    let mut i: usize = 0;
    assert(sections_view(sections@) =~= Seq::empty());
    assert(name@ =~= Seq::<char>::empty());
    assert(lv.take(0) =~= Seq::<Seq<char>>::empty());
    while i < ls.len()
        invariant
            lv == views(ls@),
            lv == lines(raw@),
            i <= ls.len(),
            ini_scan(lv.take(i as int)) == (IniScan {
                sections: sections_view(sections@),
                name: name@,
                map: map@,
            }),
        decreases ls.len() - i,
    {
        assert(lv.take(i + 1).drop_last() == lv.take(i as int));
        assert(lv.take(i + 1).last() == ls@[i as int]@);
        let ghost prev = ini_scan(lv.take(i as int));
        let stripped = strip_comment_exec(&ls[i]);
        let t = trim_vec(&stripped);
        if t.len() == 0 {
        } else if t[0] == '[' && t[t.len() - 1] == ']' {
            let inner = strip_leading_exec(&t, '[');
            let inner = strip_trailing_exec(&inner, ']');
            let new_name = trim_vec(&inner);
            assert(new_name@ == header_name(t@));
            if name.len() > 0 {
                let ghost old_sections = sections@;
                let old_map = map;
                let entry = (string_of(&name), old_map);
                sections.push(entry);
                map = SectionMap::new();
                assert(sections_view(sections@) =~= sections_view(old_sections).push(
                    (name@, old_map@),
                ));
                assert(map@ =~= Seq::<(Seq<char>, Seq<char>)>::empty());
            }
            name = new_name;
        } else {
            if let Some((k, v)) = parse_kv_line_exec(&t) {
                map.insert(&k, &v);
            }
        }
        i += 1;
    }
    assert(lv.take(ls.len() as int) == lv);
    if name.len() > 0 {
        let entry = (string_of(&name), map);
        sections.push(entry);
        assert(sections_view(sections@) =~= sections_view(sections@.drop_last()).push(
            (name@, sections@.last().1@),
        ));
    }
    sections
}

/// `kv.get(key)` or the default, as `get_string` does.
pub fn get_string(kv: &SectionMap, key: &str, default: &str) -> (r: String)
    ensures
        r@ == kv_string(kv@, key@, default@),
{
    match kv.get_str(key) {
        Some(v) => v,
        None => crate::text::owned(default),
    }
}

/// The value of the first of `keys` present, as `get_string_alias` does.
pub fn get_first(kv: &SectionMap, keys: &[&str]) -> (r: Option<String>)
    ensures
        match r {
            Some(v) => kv_first(kv@, keys@.map_values(|k: &str| k@)) == Some(v@),
            None => kv_first(kv@, keys@.map_values(|k: &str| k@)) is None,
        },
{
    let ghost ks = keys@.map_values(|k: &str| k@);
    let mut i: usize = 0;
    assert(ks.subrange(0, ks.len() as int) == ks);
    while i < keys.len()
        invariant
            i <= keys@.len(),
            ks == keys@.map_values(|k: &str| k@),
            kv_first(kv@, ks) == kv_first(kv@, ks.subrange(i as int, ks.len() as int)),
        decreases keys@.len() - i,
    {
        let ghost rest = ks.subrange(i as int, ks.len() as int);
        assert(rest[0] == keys@[i as int]@);
        assert(rest.drop_first() == ks.subrange(i + 1, ks.len() as int));
        match kv.get_str(keys[i]) {
            Some(v) => {
                return Some(v);
            },
            None => {},
        }
        i += 1;
    }
    None
}

/// `get_string_alias`: the first of `keys` present, or the default.
pub fn get_string_alias(kv: &SectionMap, keys: &[&str], default: &str) -> (r: String)
    ensures
        r@ == match kv_first(kv@, keys@.map_values(|k: &str| k@)) {
            Some(v) => v,
            None => default@,
        },
{
    match get_first(kv, keys) {
        Some(v) => v,
        None => crate::text::owned(default),
    }
}

/// Whether a value is one of the true words once trimmed and lowercased.
pub fn flag_value_exec(v: &Vec<char>) -> (r: bool)
    ensures
        r == flag_value(v@),
{
    let t = trim_vec(v);
    let l = lower_vec(&t);
    crate::text::eq_str(&l, "1") || crate::text::eq_str(&l, "true") || crate::text::eq_str(
        &l,
        "yes",
    ) || crate::text::eq_str(&l, "on")
}

/// `get_bool`: the flag `key`, or the default.
pub fn get_bool(kv: &SectionMap, key: &str, default: bool) -> (r: bool)
    ensures
        r == kv_bool(kv@, key@, default),
{
    match kv.get_str(key) {
        Some(v) => {
            let c = chars_of(v.as_str());
            flag_value_exec(&c)
        },
        None => default,
    }
}

/// `get_bool_alias`: the flag of the first of `keys` present, or the
/// default.
pub fn get_bool_alias(kv: &SectionMap, keys: &[&str], default: bool) -> (r: bool)
    ensures
        r == match kv_first(kv@, keys@.map_values(|k: &str| k@)) {
            Some(v) => flag_value(v),
            None => default,
        },
{
    match get_first(kv, keys) {
        Some(v) => {
            let c = chars_of(v.as_str());
            flag_value_exec(&c)
        },
        None => default,
    }
}

/// The items of a list value.
pub fn list_items_exec(v: &Vec<char>) -> (r: Vec<String>)
    ensures
        strings_view(r@) == list_items(v@),
{
    let replaced = replace_char_exec(v, ',', '\n');
    let ls = lines_exec(&replaced);
    let items = trimmed_nonempty_exec(&ls);
    strings_of(&items)
}

/// `get_list`: the items of the first of `keys` present; empty when none
/// is.
pub fn get_list(kv: &SectionMap, keys: &[&str]) -> (r: Vec<String>)
    ensures
        strings_view(r@) == match kv_first(kv@, keys@.map_values(|k: &str| k@)) {
            Some(v) => list_items(v),
            None => Seq::empty(),
        },
{
    match get_first(kv, keys) {
        Some(v) => {
            let c = chars_of(v.as_str());
            list_items_exec(&c)
        },
        None => {
            let r: Vec<String> = Vec::new();
            assert(strings_view(r@) =~= Seq::empty());
            r
        },
    }
}

/// The number `key` (trimmed) if it parses within `max`, else the default.
pub fn get_uint(kv: &SectionMap, key: &str, max: u64, default: u64) -> (r: u64)
    requires
        default <= max,
    ensures
        r == kv_uint(kv@, key@, max as nat, default as nat),
        r <= max,
{
    match kv.get_str(key) {
        Some(v) => {
            let c = chars_of(v.as_str());
            let t = trim_vec(&c);
            match parse_uint_exec(&t, max) {
                Some(n) => n,
                None => default,
            }
        },
        None => default,
    }
}

/// `get_u16`.
pub fn get_u16(kv: &SectionMap, key: &str, default: u16) -> (r: u16)
    ensures
        r == kv_uint(kv@, key@, 0xffff, default as nat),
{
    get_uint(kv, key, 0xffff, default as u64) as u16
}

/// `get_u64`.
pub fn get_u64(kv: &SectionMap, key: &str, default: u64) -> (r: u64)
    ensures
        r == kv_uint(kv@, key@, u64::MAX as nat, default as nat),
{
    get_uint(kv, key, u64::MAX, default)
}

/// `get_usize`.
pub fn get_usize(kv: &SectionMap, key: &str, default: usize) -> (r: usize)
    ensures
        r == kv_uint(kv@, key@, usize::MAX as nat, default as nat),
{
    get_uint(kv, key, usize::MAX as u64, default as u64) as usize
}

} // verus!
