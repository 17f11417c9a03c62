//! Where the web manager's state is kept and which records are written.
use vstd::prelude::*;
use crate::model::{ClientInfoView, ClientRuntimeConfig, ClientRuntimeConfigView, CommonConfigView, configs_view, Host, Tunnel, hosts_view, tunnels_view, HostView, TunnelView};
use crate::text::{append_str, dec, dec_exec, chars_of, find_sub, find_sub_exec, owned, rfind_char, rfind_char_exec, slice, string_of, trim, trim_vec, eq_str, starts_with};
use crate::table::{
    client_index, client_removed_in, client_status_in, host_closed_in, host_removed_in, lemma_client_index,
    lemma_host_pos, lemma_tunnel_pos, spec_host_pos, spec_tunnel_pos, tunnel_removed_in, tunnel_status_in, without_host,
};
use crate::registry::{
    lemma_key_index_absent, lemma_restore_hosts_concat, lemma_restore_hosts_fill, lemma_restore_hosts_frame,
    lemma_restore_tunnels_concat, lemma_restore_tunnels_fill, lemma_restore_tunnels_frame, restore_clients,
    restore_hosts, restore_tunnels, spec_restore, stored_hosts, stored_key, stored_tunnels,
};

verus! {

broadcast use vstd::string::group_string_axioms;

/// The directory of `nps.conf`, holding the stored records.
#[derive(Debug)]
pub struct PersistentStore {
    pub conf_dir: String,
}

/// How many leading characters of a path no component can remove: its
/// root `/`, or a leading `.` that stands for the current directory.
pub open spec fn path_floor(p: Seq<char>) -> int {
    if p.len() > 0 && p[0] == '/' {
        1
    } else if p.len() > 0 && p[0] == '.' && (p.len() == 1 || p[1] == '/') {
        1
    } else {
        0
    }
}

/// A path without its trailing separators and `.` components (those past
/// the first `floor` characters), as `Path` reads them.
pub open spec fn trim_back(s: Seq<char>, floor: int) -> Seq<char>
    decreases s.len(),
{
    if s.len() == 0 || s.len() <= floor {
        s
    } else if s.last() == '/' {
        trim_back(s.drop_last(), floor)
    } else if s.last() == '.' && (s.len() == 1 || s[s.len() - 2] == '/') {
        trim_back(s.drop_last(), floor)
    } else {
        s
    }
}

/// The last `/` of `s` at or after position `floor`.
pub open spec fn last_sep_from(s: Seq<char>, floor: int) -> Option<int> {
    match rfind_char(s, '/') {
        Some(i) => if i >= floor {
            Some(i)
        } else {
            None
        },
        None => None,
    }
}

/// `Path::parent` on a Unix path: the path without its last component and
/// the separators and `.` components before it; none for the empty path
/// and for the root alone; empty for a single name or `.`. A `.` component
/// past the start is no component, so the parent of `a/.` is empty.
pub open spec fn spec_parent(p: Seq<char>) -> Option<Seq<char>> {
    let floor = path_floor(p);
    let t = trim_back(p, floor);
    if t.len() <= floor {
        if floor == 1 && p[0] == '.' {
            Some(Seq::empty())
        } else {
            None
        }
    } else {
        let rest = match last_sep_from(t, floor) {
            Some(i) => t.subrange(0, i),
            None => t.subrange(0, floor),
        };
        Some(trim_back(rest, floor))
    }
}

/// A file in a directory: `dir/name`, or `name` for an empty directory.
pub open spec fn spec_join(dir: Seq<char>, name: Seq<char>) -> Seq<char> {
    if dir.len() == 0 {
        name
    } else if dir.last() == '/' {
        dir + name
    } else {
        dir + seq!['/'] + name
    }
}

fn trim_back_exec(s: &Vec<char>, floor: usize) -> (r: Vec<char>)
    requires
        floor <= s.len(),
    ensures
        r@ == trim_back(s@, floor as int),
{
    let mut j: usize = s.len();
    assert(s@.subrange(0, j as int) =~= s@);
    while j > floor && (s[j - 1] == '/' || (s[j - 1] == '.' && (j == 1 || s[j - 2] == '/')))
        invariant
            floor <= j <= s.len(),
            trim_back(s@, floor as int) == trim_back(s@.subrange(0, j as int), floor as int),
        decreases j,
    {
        assert(s@.subrange(0, j as int).drop_last() =~= s@.subrange(0, j - 1));
        j -= 1;
    }
    slice(s, 0, j)
}

proof fn lemma_trim_back_prefix(s: Seq<char>, floor: int)
    requires
        0 <= floor <= s.len(),
    ensures
        floor <= trim_back(s, floor).len() <= s.len(),
        trim_back(s, floor) == s.subrange(0, trim_back(s, floor).len() as int),
    decreases s.len(),
{
    if s.len() > floor && (s.last() == '/' || (s.last() == '.' && (s.len() == 1 || s[s.len() - 2] == '/'))) {
        lemma_trim_back_prefix(s.drop_last(), floor);
        let r = trim_back(s.drop_last(), floor);
        assert(s.drop_last().subrange(0, r.len() as int) =~= s.subrange(0, r.len() as int));
    } else {
        assert(s.subrange(0, s.len() as int) =~= s);
    }
}

fn join(dir: &str, name: &str) -> (r: String)
    ensures
        r@ == spec_join(dir@, name@),
{
    let mut d = chars_of(dir);
    if d.len() == 0 {
        return owned(name);
    }
    if d[d.len() - 1] != '/' {
        d.push('/');
    }
    append_str(&mut d, name);
    string_of(&d)
}

impl PersistentStore {
    /// A store in `conf_dir`.
    pub fn new(conf_dir: &str) -> (r: Self)
        ensures
            r.conf_dir@ == conf_dir@,
    {
        PersistentStore { conf_dir: owned(conf_dir) }
    }

    /// The store beside a configuration file: its directory, or `conf`
    /// when the path has none.
    pub fn from_conf_path(path: &str) -> (r: Self)
        ensures
            r.conf_dir@ == match spec_parent(path@) {
                Some(d) => d,
                None => "conf"@,
            },
    {
        let p = chars_of(path);
        let floor: usize = if p.len() > 0 && p[0] == '/' {
            1
        } else if p.len() > 0 && p[0] == '.' && (p.len() == 1 || p[1] == '/') {
            1
        } else {
            0
        };
        if floor > p.len() {
            return PersistentStore::new("conf");
        }
        let t = trim_back_exec(&p, floor);
        proof {
            lemma_trim_back_prefix(p@, floor as int);
        }
        if t.len() <= floor {
            if floor == 1 && p[0] == '.' {
                return PersistentStore { conf_dir: String::new() };
            }
            return PersistentStore::new("conf");
        }
        proof {
            crate::text::lemma_rfind_char_props(t@, '/');
        }
        let cut: usize = match rfind_char_exec(&t, '/') {
            Some(i) => if i >= floor {
                i
            } else {
                floor
            },
            None => floor,
        };
        let rest = slice(&t, 0, cut);
        let d = trim_back_exec(&rest, floor);
        PersistentStore { conf_dir: string_of(&d) }
    }

    /// The directory of the store.
    pub fn conf_dir(&self) -> (r: &String)
        ensures
            r@ == self.conf_dir@,
    {
        &self.conf_dir
    }

    /// The file of the clients.
    pub fn clients_path(&self) -> (r: String)
        ensures
            r@ == spec_join(self.conf_dir@, "clients.json"@),
    {
        join(self.conf_dir.as_str(), "clients.json")
    }

    /// The file of the tunnels.
    pub fn tasks_path(&self) -> (r: String)
        ensures
            r@ == spec_join(self.conf_dir@, "tasks.json"@),
    {
        join(self.conf_dir.as_str(), "tasks.json")
    }

    /// The file of the host routes.
    pub fn hosts_path(&self) -> (r: String)
        ensures
            r@ == spec_join(self.conf_dir@, "hosts.json"@),
    {
        join(self.conf_dir.as_str(), "hosts.json")
    }

    /// The file of the server-wide settings.
    pub fn global_path(&self) -> (r: String)
        ensures
            r@ == spec_join(self.conf_dir@, "global.json"@),
    {
        join(self.conf_dir.as_str(), "global.json")
    }
}

// ---------------------------------------------------------------------------
// Record files
// ---------------------------------------------------------------------------

/// The separator line after each record.
pub open spec fn record_sep() -> Seq<char> {
    "*#*"@
}

/// `str::split("\n*#*")`.
pub open spec fn split_records(s: Seq<char>) -> Seq<Seq<char>>
    decreases s.len(),
{
    let pat = seq!['\n'] + record_sep();
    match find_sub(s, pat) {
        Some(i) => if 0 <= i && i + 4 <= s.len() {
            seq![s.subrange(0, i)] + split_records(s.subrange(i + 4, s.len() as int))
        } else {
            seq![s]
        },
        None => seq![s],
    }
}

/// The record texts of the pieces: trimmed, without empty pieces and bare
/// separators.
pub open spec fn record_parts(ps: Seq<Seq<char>>) -> Seq<Seq<char>>
    decreases ps.len(),
{
    if ps.len() == 0 {
        Seq::empty()
    } else {
        let rest = record_parts(ps.drop_last());
        let t = trim(ps.last());
        if t.len() == 0 || t == record_sep() {
            rest
        } else {
            rest.push(t)
        }
    }
}

/// How a record file reads: nothing, a JSON array, or records separated
/// by `*#*` lines.
#[derive(Debug)]
pub enum RecordText {
    Empty,
    Array(String),
    Records(Vec<String>),
}

/// Splits the text of a record file into the texts to decode.
pub fn record_texts(raw: &str) -> (r: RecordText)
    ensures
        trim(raw@).len() == 0 ==> r is Empty,
        trim(raw@).len() > 0 && trim(raw@)[0] == '[' ==> (r matches RecordText::Array(a) && a@ == trim(raw@)),
        trim(raw@).len() > 0 && trim(raw@)[0] != '[' ==> (r matches RecordText::Records(v)
            && crate::model::strings_view(v@) == record_parts(split_records(raw@))),
{
    let rc = chars_of(raw);
    let t = trim_vec(&rc);
    if t.len() == 0 {
        return RecordText::Empty;
    }
    if t[0] == '[' {
        return RecordText::Array(string_of(&t));
    }
    let mut pat: Vec<char> = Vec::new();
    pat.push('\n');
    pat.push('*');
    pat.push('#');
    pat.push('*');
    proof {
        reveal_strlit("*#*");
    }
    assert(pat@ =~= seq!['\n'] + record_sep());
    let mut out: Vec<String> = Vec::new();
    let mut pos: usize = 0;
    assert(rc@.subrange(0, rc@.len() as int) =~= rc@);
    assert(record_parts(split_records(rc@)) =~= crate::model::strings_view(out@) + record_parts(split_records(rc@)));
    loop
        invariant
            pos <= rc.len(),
            rc@ == raw@,
            t@ == trim(raw@),
            t@.len() > 0,
            t@[0] != '[',
            pat@.len() == 4,
            pat@ == seq!['\n'] + record_sep(),
            record_parts(split_records(raw@)) == crate::model::strings_view(out@) + record_parts(
                split_records(rc@.subrange(pos as int, rc@.len() as int)),
            ),
        decreases rc.len() - pos,
    {
        let rest = slice(&rc, pos, rc.len());
        match find_sub_exec(&rest, &pat) {
            Some(i) => {
                let piece = trim_vec(&slice(&rest, 0, i));
                let next = pos + i + 4;
                let ghost tail = rc@.subrange(next as int, rc@.len() as int);
                assert(rest@.subrange(i + 4, rest@.len() as int) =~= tail);
                proof {
                    lemma_record_parts_cons(rest@.subrange(0, i as int), split_records(tail));
                }
                if !(piece.len() == 0 || eq_str(&piece, "*#*")) {
                    let ghost before = out@;
                    out.push(string_of(&piece));
                    assert(crate::model::strings_view(out@) =~= crate::model::strings_view(before).push(piece@));
                    assert(crate::model::strings_view(out@) + record_parts(split_records(tail)) =~= crate::model::strings_view(before) + (seq![piece@] + record_parts(split_records(tail))));
                } else {
                    assert(crate::model::strings_view(out@) + record_parts(split_records(tail)) =~= crate::model::strings_view(out@) + record_parts(split_records(tail)));
                }
                pos = next;
            },
            None => {
                let piece = trim_vec(&rest);
                proof {
                    lemma_record_parts_cons(rest@, Seq::empty());
                    assert(split_records(rest@) =~= seq![rest@] + Seq::<Seq<char>>::empty());
                }
                if !(piece.len() == 0 || eq_str(&piece, "*#*")) {
                    let ghost before = out@;
                    out.push(string_of(&piece));
                    assert(crate::model::strings_view(out@) =~= crate::model::strings_view(before).push(piece@));
                }
                assert(record_parts(Seq::<Seq<char>>::empty()) =~= Seq::<Seq<char>>::empty());
                return RecordText::Records(out);
            },
        }
    }
}

proof fn lemma_record_parts_cons(first: Seq<char>, rest: Seq<Seq<char>>)
    ensures
        record_parts(seq![first] + rest) == (if trim(first).len() == 0 || trim(first) == record_sep() {
            Seq::empty()
        } else {
            seq![trim(first)]
        }) + record_parts(rest),
    decreases rest.len(),
{
    let all = seq![first] + rest;
    let x: Seq<Seq<char>> = if trim(first).len() == 0 || trim(first) == record_sep() {
        Seq::empty()
    } else {
        seq![trim(first)]
    };
    assert(record_parts(Seq::<Seq<char>>::empty()) == Seq::<Seq<char>>::empty());
    if rest.len() == 0 {
        assert(all.drop_last() =~= Seq::<Seq<char>>::empty());
        assert(all.last() == first);
        assert(record_parts(all) == if trim(first).len() == 0 || trim(first) == record_sep() {
            record_parts(all.drop_last())
        } else {
            record_parts(all.drop_last()).push(trim(first))
        });
        assert(x + Seq::<Seq<char>>::empty() =~= x);
        assert(Seq::<Seq<char>>::empty().push(trim(first)) =~= seq![trim(first)]);
    } else {
        assert(all.drop_last() =~= seq![first] + rest.drop_last());
        assert(all.last() == rest.last());
        lemma_record_parts_cons(first, rest.drop_last());
        let t = trim(rest.last());
        assert(record_parts(all) == if t.len() == 0 || t == record_sep() {
            record_parts(all.drop_last())
        } else {
            record_parts(all.drop_last()).push(t)
        });
        assert(record_parts(rest) == if t.len() == 0 || t == record_sep() {
            record_parts(rest.drop_last())
        } else {
            record_parts(rest.drop_last()).push(t)
        });
        assert((x + record_parts(rest.drop_last())).push(t) =~= x + record_parts(rest.drop_last()).push(t));
    }
}

/// The pattern that ends a record: a newline and the separator.
pub open spec fn record_pat() -> Seq<char> {
    seq!['\n'] + record_sep()
}

/// The text of a record file: every record followed by a newline and the
/// separator.
pub open spec fn spec_join_records(rs: Seq<Seq<char>>) -> Seq<char>
    decreases rs.len(),
{
    if rs.len() == 0 {
        Seq::empty()
    } else {
        rs[0] + record_pat() + spec_join_records(rs.drop_first())
    }
}

/// Writes records in the line-delimited form of a record file.
pub fn join_records(records: &Vec<String>) -> (r: String)
    ensures
        r@ == spec_join_records(crate::model::strings_view(records@)),
{
    let ghost rs = crate::model::strings_view(records@);
    let mut i: usize = records.len();
    let mut tail: Vec<char> = Vec::new();
    proof {
        reveal_strlit("\n*#*");
        reveal_strlit("*#*");
    }
    assert("\n*#*"@ =~= record_pat());
    while i > 0
        invariant
            i <= records.len(),
            rs == crate::model::strings_view(records@),
            "\n*#*"@ == record_pat(),
            tail@ == spec_join_records(rs.subrange(i as int, rs.len() as int)),
        decreases i,
    {
        i -= 1;
        let mut piece = chars_of(records[i].as_str());
        append_str(&mut piece, "\n*#*");
        crate::text::append(&mut piece, &tail);
        let ghost sub = rs.subrange(i as int, rs.len() as int);
        assert(sub.drop_first() =~= rs.subrange(i + 1, rs.len() as int));
        assert(sub[0] == records@[i as int]@);
        tail = piece;
    }
    assert(rs.subrange(0, rs.len() as int) =~= rs);
    string_of(&tail)
}

/// A record that survives framing: trimmed, non-empty, not the separator
/// itself, and free of the pattern that ends records.
pub open spec fn framable(r: Seq<char>) -> bool {
    &&& r.len() > 0
    &&& trim(r) == r
    &&& r != record_sep()
    &&& find_sub(r, record_pat()) is None
}

proof fn lemma_split_after_record(r: Seq<char>, rest: Seq<char>)
    requires
        framable(r),
    ensures
        split_records(r + record_pat() + rest) == seq![r] + split_records(rest),
{
    reveal_strlit("*#*");
    let pat = record_pat();
    assert(pat =~= seq!['\n', '*', '#', '*']);
    let s = r + pat + rest;
    let n = r.len() as int;
    crate::text::lemma_find_sub_props(r, pat);
    assert(pat.len() == 4);
    assert(s.subrange(n, n + 4) =~= pat);
    assert forall|j: int| 0 <= j < n implies !crate::text::occurs_at(s, pat, j) by {
        if j + 4 <= n {
            assert(s.subrange(j, j + 4) =~= r.subrange(j, j + 4));
            assert(!crate::text::occurs_at(r, pat, j));
        } else if j + 4 <= s.len() {
            let w = s.subrange(j, j + 4);
            let k = n - j;
            assert(w[k] == s[n]);
            assert(s[n] == '\n');
            assert(1 <= k <= 3);
            if w == pat {
                assert(w[k] == pat[k]);
            }
        }
    }
    crate::text::lemma_find_sub_at(s, pat, n);
    assert(s.subrange(0, n) =~= r);
    assert(s.subrange(n + 4, s.len() as int) =~= rest);
}

proof fn lemma_split_join(rs: Seq<Seq<char>>)
    requires
        forall|i: int| 0 <= i < rs.len() ==> framable(#[trigger] rs[i]),
    ensures
        split_records(spec_join_records(rs)) == rs.push(Seq::<char>::empty()),
    decreases rs.len(),
{
    if rs.len() == 0 {
        let e = Seq::<char>::empty();
        assert(find_sub(e, record_pat()) is None);
        assert(split_records(e) =~= seq![e]);
        assert(rs.push(e) =~= seq![e]);
    } else {
        let t = rs.drop_first();
        assert(forall|i: int| 0 <= i < t.len() ==> #[trigger] t[i] == rs[i + 1]);
        lemma_split_join(t);
        assert(framable(rs[0]));
        lemma_split_after_record(rs[0], spec_join_records(t));
        assert(seq![rs[0]] + t.push(Seq::<char>::empty()) =~= rs.push(Seq::<char>::empty()));
    }
}

proof fn lemma_parts_of_framable(rs: Seq<Seq<char>>)
    requires
        forall|i: int| 0 <= i < rs.len() ==> framable(#[trigger] rs[i]),
    ensures
        record_parts(rs) == rs,
    decreases rs.len(),
{
    if rs.len() > 0 {
        let d = rs.drop_last();
        assert(forall|i: int| 0 <= i < d.len() ==> #[trigger] d[i] == rs[i]);
        lemma_parts_of_framable(d);
        assert(framable(rs[rs.len() - 1]));
        assert(d.push(rs.last()) =~= rs);
    }
}

proof fn lemma_trim_start_len(s: Seq<char>)
    ensures
        crate::text::trim_start(s).len() <= s.len(),
        s.len() > 0 && crate::text::is_ws(s[0]) ==> crate::text::trim_start(s).len() < s.len(),
    decreases s.len(),
{
    if s.len() > 0 && crate::text::is_ws(s[0]) {
        lemma_trim_start_len(s.drop_first());
    }
}

proof fn lemma_trim_end_len(s: Seq<char>)
    ensures
        crate::text::trim_end(s).len() <= s.len(),
    decreases s.len(),
{
    if s.len() > 0 && crate::text::is_ws(s.last()) {
        lemma_trim_end_len(s.drop_last());
    }
}

proof fn lemma_trimmed_starts_solid(r: Seq<char>)
    requires
        r.len() > 0,
        trim(r) == r,
    ensures
        !crate::text::is_ws(r[0]),
{
    lemma_trim_start_len(r);
    lemma_trim_end_len(crate::text::trim_start(r));
}

proof fn lemma_join_starts_with_first(rs: Seq<Seq<char>>)
    requires
        rs.len() > 0,
        rs[0].len() > 0,
    ensures
        spec_join_records(rs).len() > 0,
        spec_join_records(rs)[0] == rs[0][0],
        spec_join_records(rs).last() == '*',
    decreases rs.len(),
{
    reveal_strlit("*#*");
    assert(record_pat() =~= seq!['\n', '*', '#', '*']);
    let t = rs.drop_first();
    let j = spec_join_records(rs);
    assert(j == rs[0] + record_pat() + spec_join_records(t));
    if t.len() > 0 {
        if t[0].len() > 0 {
            lemma_join_starts_with_first(t);
        } else {
            lemma_join_last(t);
        }
        assert(j.last() == spec_join_records(t).last());
    } else {
        assert(spec_join_records(t) =~= Seq::<char>::empty());
        assert(j.last() == record_pat().last());
    }
}

proof fn lemma_join_last(rs: Seq<Seq<char>>)
    requires
        rs.len() > 0,
    ensures
        spec_join_records(rs).len() > 0,
        spec_join_records(rs).last() == '*',
    decreases rs.len(),
{
    reveal_strlit("*#*");
    assert(record_pat() =~= seq!['\n', '*', '#', '*']);
    let t = rs.drop_first();
    let j = spec_join_records(rs);
    assert(j == rs[0] + record_pat() + spec_join_records(t));
    if t.len() > 0 {
        lemma_join_last(t);
        assert(j.last() == spec_join_records(t).last());
    } else {
        assert(spec_join_records(t) =~= Seq::<char>::empty());
        assert(j.last() == record_pat().last());
    }
}

/// Records written by [`join_records`] are read back by [`record_texts`]
/// in the same order, as long as each is framable and the first does not
/// open a JSON array; no records make an empty file.
pub proof fn lemma_records_round_trip(rs: Seq<Seq<char>>)
    requires
        forall|i: int| 0 <= i < rs.len() ==> framable(#[trigger] rs[i]),
        rs.len() > 0 ==> rs[0][0] != '[',
    ensures
        rs.len() == 0 ==> trim(spec_join_records(rs)).len() == 0,
        rs.len() > 0 ==> trim(spec_join_records(rs)).len() > 0 && trim(spec_join_records(rs))[0] != '[',
        record_parts(split_records(spec_join_records(rs))) == rs,
{
    lemma_split_join(rs);
    let e = Seq::<char>::empty();
    assert(rs.push(e).drop_last() =~= rs);
    assert(trim(e).len() == 0);
    lemma_parts_of_framable(rs);
    if rs.len() > 0 {
        let j = spec_join_records(rs);
        assert(framable(rs[0]));
        lemma_trimmed_starts_solid(rs[0]);
        lemma_join_starts_with_first(rs);
        assert(crate::text::trim_start(j) == j);
        assert(crate::text::trim_end(j) == j);
    } else {
        assert(spec_join_records(rs) =~= e);
    }
}

// ---------------------------------------------------------------------------
// What is written
// ---------------------------------------------------------------------------

/// The records written for the clients, in the order given: a client is
/// written (without its routes, tunnels, checks and visitors, and as
/// stored) unless it is unstored with nothing stored; its stored tunnels
/// and routes are written with it.
#[derive(Debug)]
pub struct PersistRecords {
    pub clients: Vec<ClientRuntimeConfig>,
    pub tunnels: Vec<Tunnel>,
    pub hosts: Vec<Host>,
}

/// Builds the records to write for the clients.
pub fn persist_records(clients: &Vec<ClientRuntimeConfig>) -> (r: PersistRecords)
    ensures
        forall|i: int| 0 <= i < r.tunnels@.len() ==> !(#[trigger] r.tunnels@[i]).no_store,
        forall|i: int| 0 <= i < r.hosts@.len() ==> !(#[trigger] r.hosts@[i]).no_store,
        configs_view(r.clients@) == written_clients(clients@),
        tunnels_view(r.tunnels@) == stored_all_tunnels(clients@),
        hosts_view(r.hosts@) == stored_all_hosts(clients@),
{
    let mut out_clients: Vec<ClientRuntimeConfig> = Vec::new();
    let mut out_tunnels: Vec<Tunnel> = Vec::new();
    let mut out_hosts: Vec<Host> = Vec::new();
    let mut i: usize = 0;
    assert(tunnels_view(out_tunnels@) =~= stored_all_tunnels(clients@.take(0)));
    assert(hosts_view(out_hosts@) =~= stored_all_hosts(clients@.take(0)));
    while i < clients.len()
        invariant
            i <= clients.len(),
            forall|k: int| 0 <= k < out_tunnels@.len() ==> !(#[trigger] out_tunnels@[k]).no_store,
            forall|k: int| 0 <= k < out_hosts@.len() ==> !(#[trigger] out_hosts@[k]).no_store,
            configs_view(out_clients@) == written_clients(clients@.take(i as int)),
            tunnels_view(out_tunnels@) == stored_all_tunnels(clients@.take(i as int)),
            hosts_view(out_hosts@) == stored_all_hosts(clients@.take(i as int)),
        decreases clients.len() - i,
    {
        assert(clients@.take(i + 1).drop_last() =~= clients@.take(i as int));
        assert(clients@.take(i + 1).last() == clients@[i as int]);
        let c = &clients[i];
        let mut ts: Vec<Tunnel> = Vec::new();
        let mut hs: Vec<Host> = Vec::new();
        let mut j: usize = 0;
        assert(tunnels_view(ts@) =~= crate::registry::stored_tunnels(tunnels_view(c.tunnels@).take(0)));
        while j < c.tunnels.len()
            invariant
                j <= c.tunnels.len(),
                forall|k: int| 0 <= k < ts@.len() ==> !(#[trigger] ts@[k]).no_store,
                tunnels_view(ts@) == crate::registry::stored_tunnels(tunnels_view(c.tunnels@).take(j as int)),
            decreases c.tunnels.len() - j,
        {
            assert(tunnels_view(c.tunnels@).take(j + 1).drop_last() =~= tunnels_view(c.tunnels@).take(j as int));
            if !c.tunnels[j].no_store {
                let ghost before = ts@;
                ts.push(c.tunnels[j].duplicate());
                assert(tunnels_view(ts@) =~= tunnels_view(before).push(c.tunnels@[j as int]@));
            }
            j += 1;
        }
        assert(tunnels_view(c.tunnels@).take(c.tunnels.len() as int) =~= tunnels_view(c.tunnels@));
        j = 0;
        assert(hosts_view(hs@) =~= crate::registry::stored_hosts(hosts_view(c.hosts@).take(0)));
        while j < c.hosts.len()
            invariant
                j <= c.hosts.len(),
                forall|k: int| 0 <= k < hs@.len() ==> !(#[trigger] hs@[k]).no_store,
                hosts_view(hs@) == crate::registry::stored_hosts(hosts_view(c.hosts@).take(j as int)),
            decreases c.hosts.len() - j,
        {
            assert(hosts_view(c.hosts@).take(j + 1).drop_last() =~= hosts_view(c.hosts@).take(j as int));
            if !c.hosts[j].no_store {
                let ghost before = hs@;
                hs.push(c.hosts[j].duplicate());
                assert(hosts_view(hs@) =~= hosts_view(before).push(c.hosts@[j as int]@));
            }
            j += 1;
        }
        assert(hosts_view(c.hosts@).take(c.hosts.len() as int) =~= hosts_view(c.hosts@));
        if !(c.no_store && ts.len() == 0 && hs.len() == 0) {
            let record = ClientRuntimeConfig {
                id: c.id,
                no_store: false,
                no_display: c.no_display,
                create_time: c.create_time.clone(),
                last_online_time: c.last_online_time.clone(),
                last_online_addr: c.last_online_addr.clone(),
                common: c.common.duplicate(),
                hosts: Vec::new(),
                tunnels: Vec::new(),
                healths: Vec::new(),
                local_servers: Vec::new(),
            };
            assert(record@ =~= client_record(c@));
            let ghost cb = out_clients@;
            out_clients.push(record);
            assert(configs_view(out_clients@) =~= configs_view(cb).push(client_record(c@)));
            let ghost tb = out_tunnels@;
            let ghost hb = out_hosts@;
            let mut k: usize = 0;
            while k < ts.len()
                invariant
                    k <= ts.len(),
                    forall|m: int| 0 <= m < ts@.len() ==> !(#[trigger] ts@[m]).no_store,
                    forall|m: int| 0 <= m < out_tunnels@.len() ==> !(#[trigger] out_tunnels@[m]).no_store,
                    tunnels_view(out_tunnels@) == tunnels_view(tb) + tunnels_view(ts@).take(k as int),
                decreases ts.len() - k,
            {
                let ghost before = out_tunnels@;
                out_tunnels.push(ts[k].duplicate());
                assert(tunnels_view(out_tunnels@) =~= tunnels_view(before).push(ts@[k as int]@));
                assert(tunnels_view(ts@).take(k + 1) =~= tunnels_view(ts@).take(k as int).push(ts@[k as int]@));
                k += 1;
            }
            assert(tunnels_view(ts@).take(ts.len() as int) =~= tunnels_view(ts@));
            k = 0;
            while k < hs.len()
                invariant
                    k <= hs.len(),
                    forall|m: int| 0 <= m < hs@.len() ==> !(#[trigger] hs@[m]).no_store,
                    forall|m: int| 0 <= m < out_hosts@.len() ==> !(#[trigger] out_hosts@[m]).no_store,
                    hosts_view(out_hosts@) == hosts_view(hb) + hosts_view(hs@).take(k as int),
                decreases hs.len() - k,
            {
                let ghost before = out_hosts@;
                out_hosts.push(hs[k].duplicate());
                assert(hosts_view(out_hosts@) =~= hosts_view(before).push(hs@[k as int]@));
                assert(hosts_view(hs@).take(k + 1) =~= hosts_view(hs@).take(k as int).push(hs@[k as int]@));
                k += 1;
            }
            assert(hosts_view(hs@).take(hs.len() as int) =~= hosts_view(hs@));
        } else {
            assert(tunnels_view(ts@).len() == 0);
            assert(hosts_view(hs@).len() == 0);
        }
        i += 1;
    }
    assert(clients@.take(clients.len() as int) =~= clients@);
    PersistRecords { clients: out_clients, tunnels: out_tunnels, hosts: out_hosts }
}

/// A client is written: it is stored, or has something stored.
pub open spec fn client_written(c: ClientRuntimeConfig) -> bool {
    !(c.no_store && crate::registry::stored_tunnels(tunnels_view(c.tunnels@)).len() == 0
        && crate::registry::stored_hosts(hosts_view(c.hosts@)).len() == 0)
}

/// The stored tunnels of the written clients, in order.
pub open spec fn stored_all_tunnels(cs: Seq<ClientRuntimeConfig>) -> Seq<TunnelView>
    decreases cs.len(),
{
    if cs.len() == 0 {
        Seq::empty()
    } else if client_written(cs.last()) {
        stored_all_tunnels(cs.drop_last()) + crate::registry::stored_tunnels(tunnels_view(cs.last().tunnels@))
    } else {
        stored_all_tunnels(cs.drop_last())
    }
}

/// The stored routes of the written clients, in order.
pub open spec fn stored_all_hosts(cs: Seq<ClientRuntimeConfig>) -> Seq<HostView>
    decreases cs.len(),
{
    if cs.len() == 0 {
        Seq::empty()
    } else if client_written(cs.last()) {
        stored_all_hosts(cs.drop_last()) + crate::registry::stored_hosts(hosts_view(cs.last().hosts@))
    } else {
        stored_all_hosts(cs.drop_last())
    }
}

/// The record written for a client: the client as stored, without its
/// routes, tunnels, checks and visitors.
pub open spec fn client_record(c: ClientRuntimeConfigView) -> ClientRuntimeConfigView {
    ClientRuntimeConfigView {
        no_store: false,
        hosts: Seq::empty(),
        tunnels: Seq::empty(),
        healths: Seq::empty(),
        local_servers: Seq::empty(),
        ..c
    }
}

/// The client records written for the clients, in order.
pub open spec fn written_clients(cs: Seq<ClientRuntimeConfig>) -> Seq<ClientRuntimeConfigView>
    decreases cs.len(),
{
    if cs.len() == 0 {
        Seq::empty()
    } else if client_written(cs.last()) {
        written_clients(cs.drop_last()).push(client_record(cs.last()@))
    } else {
        written_clients(cs.drop_last())
    }
}


// ---------------------------------------------------------------------------
// Key order
// ---------------------------------------------------------------------------

/// `a` comes before `b` in the order of `str`: strings are ordered by
/// their UTF-8 bytes, which is the order of their characters' code points,
/// a proper prefix first.
pub open spec fn key_less(a: Seq<char>, b: Seq<char>) -> bool
    decreases a.len(),
{
    if a.len() == 0 {
        b.len() > 0
    } else if b.len() == 0 {
        false
    } else if a[0] != b[0] {
        (a[0] as u32) < (b[0] as u32)
    } else {
        key_less(a.drop_first(), b.drop_first())
    }
}

/// The key a client is stored under.
pub open spec fn client_key(c: ClientRuntimeConfig) -> Seq<char> {
    c.common.vkey@
}

/// Where a client with key `k` goes in `s`: after every client whose key
/// does not come after `k`, counted from the front.
pub open spec fn key_slot(s: Seq<ClientRuntimeConfig>, k: Seq<char>) -> int
    decreases s.len(),
{
    if s.len() == 0 || key_less(k, client_key(s[0])) {
        0
    } else {
        1 + key_slot(s.drop_first(), k)
    }
}

/// The clients ordered by key; clients with equal keys keep their order.
pub open spec fn sorted_by_key(cs: Seq<ClientRuntimeConfig>) -> Seq<ClientRuntimeConfig>
    decreases cs.len(),
{
    if cs.len() == 0 {
        cs
    } else {
        let s = sorted_by_key(cs.drop_last());
        s.insert(key_slot(s, client_key(cs.last())), cs.last())
    }
}

/// No key of `s` comes before an earlier one.
pub open spec fn keys_ordered(s: Seq<ClientRuntimeConfig>) -> bool {
    forall|i: int, j: int| 0 <= i < j < s.len() ==> !key_less(client_key(#[trigger] s[j]), client_key(#[trigger] s[i]))
}

proof fn lemma_key_less_asym(a: Seq<char>, b: Seq<char>)
    ensures
        key_less(a, b) ==> !key_less(b, a),
    decreases a.len(),
{
    if a.len() > 0 && b.len() > 0 && a[0] == b[0] {
        lemma_key_less_asym(a.drop_first(), b.drop_first());
    }
}

proof fn lemma_key_less_trans(a: Seq<char>, b: Seq<char>, c: Seq<char>)
    requires
        key_less(a, b),
        key_less(b, c),
    ensures
        key_less(a, c),
    decreases a.len(),
{
    if a.len() > 0 && b.len() > 0 && c.len() > 0 && a[0] == b[0] && b[0] == c[0] {
        lemma_key_less_trans(a.drop_first(), b.drop_first(), c.drop_first());
    }
}

proof fn lemma_key_slot(s: Seq<ClientRuntimeConfig>, k: Seq<char>)
    ensures
        0 <= key_slot(s, k) <= s.len(),
        forall|i: int| 0 <= i < key_slot(s, k) ==> !key_less(k, client_key(#[trigger] s[i])),
        key_slot(s, k) < s.len() ==> key_less(k, client_key(s[key_slot(s, k)])),
    decreases s.len(),
{
    if s.len() > 0 && !key_less(k, client_key(s[0])) {
        let t = s.drop_first();
        lemma_key_slot(t, k);
        assert forall|i: int| 0 <= i < key_slot(s, k) implies !key_less(k, client_key(#[trigger] s[i])) by {
            if i > 0 {
                assert(s[i] == t[i - 1]);
            }
        }
    }
}

/// Sorting by key orders the clients by key and keeps every client: the
/// result holds the same clients as many times as the input.
pub proof fn lemma_sorted_by_key(cs: Seq<ClientRuntimeConfig>)
    ensures
        keys_ordered(sorted_by_key(cs)),
        sorted_by_key(cs).to_multiset() == cs.to_multiset(),
    decreases cs.len(),
{
    broadcast use vstd::seq_lib::to_multiset_insert, vstd::seq_lib::to_multiset_build;

    if cs.len() > 0 {
        let pre = cs.drop_last();
        let x = cs.last();
        lemma_sorted_by_key(pre);
        let s = sorted_by_key(pre);
        let k = client_key(x);
        lemma_key_slot(s, k);
        let p = key_slot(s, k);
        let r = s.insert(p, x);
        assert(r == sorted_by_key(cs));
        assert forall|i: int, j: int| 0 <= i < j < r.len() implies !key_less(
            client_key(#[trigger] r[j]),
            client_key(#[trigger] r[i]),
        ) by {
            if j < p {
                assert(r[i] == s[i] && r[j] == s[j]);
            } else if j == p {
                assert(r[i] == s[i]);
            } else if i > p {
                assert(r[i] == s[i - 1] && r[j] == s[j - 1]);
            } else if i == p {
                assert(r[j] == s[j - 1]);
                lemma_key_less_asym(k, client_key(s[p]));
                if key_less(client_key(s[j - 1]), k) {
                    lemma_key_less_trans(client_key(s[j - 1]), k, client_key(s[p]));
                    if j - 1 > p {
                        assert(!key_less(client_key(s[j - 1]), client_key(s[p])));
                    }
                }
            } else {
                assert(r[i] == s[i] && r[j] == s[j - 1]);
            }
        }
        assert(cs == pre.push(x));
    }
}

fn key_less_exec(a: &Vec<char>, b: &Vec<char>) -> (r: bool)
    ensures
        r == key_less(a@, b@),
{
    let mut i: usize = 0;
    assert(a@.subrange(0, a.len() as int) == a@);
    assert(b@.subrange(0, b.len() as int) == b@);
    while i < a.len() && i < b.len() && a[i] == b[i]
        invariant
            i <= a.len(),
            i <= b.len(),
            key_less(a@, b@) == key_less(a@.subrange(i as int, a.len() as int), b@.subrange(i as int, b.len() as int)),
        decreases a.len() - i,
    {
        assert(a@.subrange(i as int, a.len() as int).drop_first() == a@.subrange(i + 1, a.len() as int));
        assert(b@.subrange(i as int, b.len() as int).drop_first() == b@.subrange(i + 1, b.len() as int));
        i += 1;
    }
    if i == a.len() {
        i < b.len()
    } else if i == b.len() {
        false
    } else {
        (a[i] as u32) < (b[i] as u32)
    }
}

fn key_slot_exec(s: &Vec<ClientRuntimeConfig>, k: &Vec<char>) -> (r: usize)
    ensures
        r == key_slot(s@, k@),
{
    let mut i: usize = 0;
    assert(s@.subrange(0, s.len() as int) == s@);
    while i < s.len()
        invariant
            i <= s.len(),
            key_slot(s@, k@) == i + key_slot(s@.subrange(i as int, s.len() as int), k@),
        decreases s.len() - i,
    {
        let key = chars_of(s[i].common.vkey.as_str());
        if key_less_exec(k, &key) {
            return i;
        }
        assert(s@.subrange(i as int, s.len() as int).drop_first() == s@.subrange(i + 1, s.len() as int));
        i += 1;
    }
    i
}

/// Orders the clients by key, as the records are written: see
/// [`sorted_by_key`] and [`lemma_sorted_by_key`].
pub fn sort_by_key(clients: &mut Vec<ClientRuntimeConfig>)
    ensures
        final(clients)@ == sorted_by_key(old(clients)@),
{
    let ghost all = clients@;
    let n: usize = clients.len();
    assert(all.len() == n);
    let mut out: Vec<ClientRuntimeConfig> = Vec::new();
    let mut done: usize = 0;
    assert(all.take(0) =~= Seq::<ClientRuntimeConfig>::empty());
    while clients.len() > 0
        invariant
            done <= all.len(),
            all.len() <= usize::MAX,
            clients@ == all.subrange(done as int, all.len() as int),
            out@ == sorted_by_key(all.take(done as int)),
        decreases clients.len(),
    {
        assert(done < all.len());
        let c = clients.remove(0);
        assert(all.take(done + 1).drop_last() == all.take(done as int));
        assert(all.take(done + 1).last() == c);
        let key = chars_of(c.common.vkey.as_str());
        let p = key_slot_exec(&out, &key);
        proof {
            lemma_key_slot(out@, key@);
        }
        out.insert(p, c);
        done += 1;
        assert(clients@ == all.subrange(done as int, all.len() as int));
    }
    assert(all.take(done as int) == all);
    *clients = out;
}

/// The records to write for the clients, taken in key order: see
/// [`persist_records`] and [`sorted_by_key`].
pub fn persist_sorted(clients: Vec<ClientRuntimeConfig>) -> (r: PersistRecords)
    ensures
        forall|i: int| 0 <= i < r.tunnels@.len() ==> !(#[trigger] r.tunnels@[i]).no_store,
        forall|i: int| 0 <= i < r.hosts@.len() ==> !(#[trigger] r.hosts@[i]).no_store,
        configs_view(r.clients@) == written_clients(sorted_by_key(clients@)),
        tunnels_view(r.tunnels@) == stored_all_tunnels(sorted_by_key(clients@)),
        hosts_view(r.hosts@) == stored_all_hosts(sorted_by_key(clients@)),
{
    let mut sorted = clients;
    sort_by_key(&mut sorted);
    persist_records(&sorted)
}

// ---------------------------------------------------------------------------
// Records in the old field layout
// ---------------------------------------------------------------------------

/// A tunnel read from a record in the old layout: its run status is the
/// recorded one, or its status where none is recorded, and an empty port
/// list becomes the tunnel's own port where it has one.
pub open spec fn spec_old_style_tunnel(t: TunnelView, run_status: Option<bool>) -> TunnelView {
    TunnelView {
        run_status: match run_status {
            Some(b) => b,
            None => t.status,
        },
        ports: if t.ports.len() == 0 && t.server_port > 0 {
            dec(t.server_port as nat)
        } else {
            t.ports
        },
        ..t
    }
}

/// Completes a tunnel read from a record in the old layout: see
/// [`spec_old_style_tunnel`].
pub fn complete_old_style_tunnel(tunnel: &mut Tunnel, run_status: Option<bool>)
    ensures
        final(tunnel)@ == spec_old_style_tunnel(old(tunnel)@, run_status),
{
    tunnel.run_status = match run_status {
        Some(b) => b,
        None => tunnel.status,
    };
    if tunnel.ports.as_str().is_empty() && tunnel.server_port > 0 {
        tunnel.ports = string_of(&dec_exec(tunnel.server_port as u64));
    }
}

// ---------------------------------------------------------------------------
// Reading back what was written
// ---------------------------------------------------------------------------

/// A written client with its stored tunnels (and no routes yet).
pub open spec fn tunnels_record(c: ClientRuntimeConfig) -> ClientRuntimeConfigView {
    ClientRuntimeConfigView { tunnels: stored_tunnels(tunnels_view(c.tunnels@)), ..client_record(c@) }
}

/// A written client as it is read back: its record with its stored
/// tunnels and routes.
pub open spec fn stored_config(c: ClientRuntimeConfig) -> ClientRuntimeConfigView {
    ClientRuntimeConfigView { hosts: stored_hosts(hosts_view(c.hosts@)), ..tunnels_record(c) }
}

pub open spec fn with_tunnels(cs: Seq<ClientRuntimeConfig>) -> Seq<ClientRuntimeConfigView>
    decreases cs.len(),
{
    if cs.len() == 0 {
        Seq::empty()
    } else if client_written(cs.last()) {
        with_tunnels(cs.drop_last()).push(tunnels_record(cs.last()))
    } else {
        with_tunnels(cs.drop_last())
    }
}

/// The written clients as they are read back, in order.
pub open spec fn stored_configs(cs: Seq<ClientRuntimeConfig>) -> Seq<ClientRuntimeConfigView>
    decreases cs.len(),
{
    if cs.len() == 0 {
        Seq::empty()
    } else if client_written(cs.last()) {
        stored_configs(cs.drop_last()).push(stored_config(cs.last()))
    } else {
        stored_configs(cs.drop_last())
    }
}

/// What the registry keeps true of its clients: distinct keys; a written
/// client has a key, an id, and the same key in both key fields; its stored
/// tunnels and routes carry its key and an id.
pub open spec fn registry_consistent(cs: Seq<ClientRuntimeConfig>) -> bool {
    &&& forall|i: int, j: int| 0 <= i < j < cs.len() ==> #[trigger] cs[i].common.vkey@ != #[trigger] cs[j].common.vkey@
    &&& forall|i: int| 0 <= i < cs.len() && client_written(#[trigger] cs[i]) ==> {
        &&& cs[i].common.vkey@.len() > 0
        &&& cs[i].id != 0
        &&& cs[i].common.client.verify_key@ == cs[i].common.vkey@
    }
    &&& forall|i: int, j: int| 0 <= i < cs.len() && 0 <= j < cs[i].tunnels@.len() && !(#[trigger] cs[i].tunnels@[j]).no_store ==> {
        &&& cs[i].tunnels@[j].client_vkey@ == cs[i].common.vkey@
        &&& cs[i].tunnels@[j].id != 0
    }
    &&& forall|i: int, j: int| 0 <= i < cs.len() && 0 <= j < cs[i].hosts@.len() && !(#[trigger] cs[i].hosts@[j]).no_store ==> {
        &&& cs[i].hosts@[j].client_vkey@ == cs[i].common.vkey@
        &&& cs[i].hosts@[j].id != 0
    }
}

proof fn lemma_consistent_prefix(cs: Seq<ClientRuntimeConfig>)
    requires
        cs.len() > 0,
        registry_consistent(cs),
    ensures
        registry_consistent(cs.drop_last()),
        forall|j: int| 0 <= j < cs.len() - 1 ==> #[trigger] cs[j].common.vkey@ != cs.last().common.vkey@,
{
    let d = cs.drop_last();
    assert forall|i: int, j: int| 0 <= i < j < d.len() implies #[trigger] d[i].common.vkey@ != #[trigger] d[j].common.vkey@ by {
        assert(d[i] == cs[i] && d[j] == cs[j]);
    }
    assert forall|i: int| 0 <= i < d.len() && client_written(#[trigger] d[i]) implies {
        &&& d[i].common.vkey@.len() > 0
        &&& d[i].id != 0
        &&& d[i].common.client.verify_key@ == d[i].common.vkey@
    } by {
        assert(d[i] == cs[i]);
    }
    assert forall|i: int, j: int| 0 <= i < d.len() && 0 <= j < d[i].tunnels@.len() && !(#[trigger] d[i].tunnels@[j]).no_store implies {
        &&& d[i].tunnels@[j].client_vkey@ == d[i].common.vkey@
        &&& d[i].tunnels@[j].id != 0
    } by {
        assert(d[i] == cs[i]);
    }
    assert forall|i: int, j: int| 0 <= i < d.len() && 0 <= j < d[i].hosts@.len() && !(#[trigger] d[i].hosts@[j]).no_store implies {
        &&& d[i].hosts@[j].client_vkey@ == d[i].common.vkey@
        &&& d[i].hosts@[j].id != 0
    } by {
        assert(d[i] == cs[i]);
    }
    assert forall|j: int| 0 <= j < cs.len() - 1 implies #[trigger] cs[j].common.vkey@ != cs.last().common.vkey@ by {
        assert(cs.last() == cs[cs.len() - 1]);
    }
}

proof fn lemma_stored_tunnels_of(tv: Seq<TunnelView>, key: Seq<char>)
    requires
        forall|j: int| 0 <= j < tv.len() && !(#[trigger] tv[j]).no_store ==> tv[j].client_vkey == key && tv[j].id != 0,
    ensures
        forall|k: int| 0 <= k < stored_tunnels(tv).len() ==> (#[trigger] stored_tunnels(tv)[k]).client_vkey == key
            && stored_tunnels(tv)[k].id != 0 && !stored_tunnels(tv)[k].no_store,
    decreases tv.len(),
{
    if tv.len() > 0 {
        let d = tv.drop_last();
        assert forall|j: int| 0 <= j < d.len() && !(#[trigger] d[j]).no_store implies d[j].client_vkey == key && d[j].id != 0 by {
            assert(d[j] == tv[j]);
        }
        lemma_stored_tunnels_of(d, key);
        assert(tv.last() == tv[tv.len() - 1]);
        assert forall|k: int| 0 <= k < stored_tunnels(tv).len() implies (#[trigger] stored_tunnels(tv)[k]).client_vkey == key
            && stored_tunnels(tv)[k].id != 0 && !stored_tunnels(tv)[k].no_store by {
            if k < stored_tunnels(d).len() {
                assert(stored_tunnels(tv)[k] == stored_tunnels(d)[k]);
            }
        }
    }
}

proof fn lemma_stored_hosts_of(hv: Seq<HostView>, key: Seq<char>)
    requires
        forall|j: int| 0 <= j < hv.len() && !(#[trigger] hv[j]).no_store ==> hv[j].client_vkey == key && hv[j].id != 0,
    ensures
        forall|k: int| 0 <= k < stored_hosts(hv).len() ==> (#[trigger] stored_hosts(hv)[k]).client_vkey == key
            && stored_hosts(hv)[k].id != 0 && !stored_hosts(hv)[k].no_store,
    decreases hv.len(),
{
    if hv.len() > 0 {
        let d = hv.drop_last();
        assert forall|j: int| 0 <= j < d.len() && !(#[trigger] d[j]).no_store implies d[j].client_vkey == key && d[j].id != 0 by {
            assert(d[j] == hv[j]);
        }
        lemma_stored_hosts_of(d, key);
        assert(hv.last() == hv[hv.len() - 1]);
        assert forall|k: int| 0 <= k < stored_hosts(hv).len() implies (#[trigger] stored_hosts(hv)[k]).client_vkey == key
            && stored_hosts(hv)[k].id != 0 && !stored_hosts(hv)[k].no_store by {
            if k < stored_hosts(d).len() {
                assert(stored_hosts(hv)[k] == stored_hosts(d)[k]);
            }
        }
    }
}

proof fn lemma_last_tunnels(cs: Seq<ClientRuntimeConfig>)
    requires
        cs.len() > 0,
        registry_consistent(cs),
    ensures
        forall|k: int| 0 <= k < stored_tunnels(tunnels_view(cs.last().tunnels@)).len() ==>
            (#[trigger] stored_tunnels(tunnels_view(cs.last().tunnels@))[k]).client_vkey == cs.last().common.vkey@
            && stored_tunnels(tunnels_view(cs.last().tunnels@))[k].id != 0
            && !stored_tunnels(tunnels_view(cs.last().tunnels@))[k].no_store,
        forall|k: int| 0 <= k < stored_hosts(hosts_view(cs.last().hosts@)).len() ==>
            (#[trigger] stored_hosts(hosts_view(cs.last().hosts@))[k]).client_vkey == cs.last().common.vkey@
            && stored_hosts(hosts_view(cs.last().hosts@))[k].id != 0
            && !stored_hosts(hosts_view(cs.last().hosts@))[k].no_store,
{
    let i = cs.len() - 1;
    assert(cs.last() == cs[i]);
    let tv = tunnels_view(cs[i].tunnels@);
    assert forall|j: int| 0 <= j < tv.len() && !(#[trigger] tv[j]).no_store implies tv[j].client_vkey == cs[i].common.vkey@ && tv[j].id != 0 by {
        assert(tv[j] == cs[i].tunnels@[j]@);
        assert(!cs[i].tunnels@[j].no_store);
    }
    lemma_stored_tunnels_of(tv, cs[i].common.vkey@);
    let hv = hosts_view(cs[i].hosts@);
    assert forall|j: int| 0 <= j < hv.len() && !(#[trigger] hv[j]).no_store implies hv[j].client_vkey == cs[i].common.vkey@ && hv[j].id != 0 by {
        assert(hv[j] == cs[i].hosts@[j]@);
        assert(!cs[i].hosts@[j].no_store);
    }
    lemma_stored_hosts_of(hv, cs[i].common.vkey@);
}

/// No written client, stored tunnel or stored route carries a key that no
/// client has.
proof fn lemma_written_avoid(cs: Seq<ClientRuntimeConfig>, key: Seq<char>)
    requires
        registry_consistent(cs),
        forall|j: int| 0 <= j < cs.len() ==> #[trigger] cs[j].common.vkey@ != key,
    ensures
        forall|i: int| 0 <= i < written_clients(cs).len() ==> #[trigger] written_clients(cs)[i].common.vkey != key,
        forall|i: int| 0 <= i < with_tunnels(cs).len() ==> #[trigger] with_tunnels(cs)[i].common.vkey != key,
        forall|i: int| 0 <= i < stored_configs(cs).len() ==> #[trigger] stored_configs(cs)[i].common.vkey != key,
        forall|i: int| 0 <= i < stored_all_tunnels(cs).len() ==> #[trigger] stored_all_tunnels(cs)[i].client_vkey != key,
        forall|i: int| 0 <= i < stored_all_hosts(cs).len() ==> #[trigger] stored_all_hosts(cs)[i].client_vkey != key,
    decreases cs.len(),
{
    if cs.len() > 0 {
        let d = cs.drop_last();
        lemma_consistent_prefix(cs);
        assert forall|j: int| 0 <= j < d.len() implies #[trigger] d[j].common.vkey@ != key by {
            assert(d[j] == cs[j]);
        }
        lemma_written_avoid(d, key);
        assert(cs.last() == cs[cs.len() - 1]);
        if client_written(cs.last()) {
            assert forall|i: int| 0 <= i < written_clients(cs).len() implies #[trigger] written_clients(cs)[i].common.vkey != key by {
                if i < written_clients(d).len() {
                    assert(written_clients(cs)[i] == written_clients(d)[i]);
                }
            }
            assert forall|i: int| 0 <= i < with_tunnels(cs).len() implies #[trigger] with_tunnels(cs)[i].common.vkey != key by {
                if i < with_tunnels(d).len() {
                    assert(with_tunnels(cs)[i] == with_tunnels(d)[i]);
                }
            }
            assert forall|i: int| 0 <= i < stored_configs(cs).len() implies #[trigger] stored_configs(cs)[i].common.vkey != key by {
                if i < stored_configs(d).len() {
                    assert(stored_configs(cs)[i] == stored_configs(d)[i]);
                }
            }
            lemma_last_tunnels(cs);
            let st = stored_tunnels(tunnels_view(cs.last().tunnels@));
            let sh = stored_hosts(hosts_view(cs.last().hosts@));
            assert forall|i: int| 0 <= i < stored_all_tunnels(cs).len() implies #[trigger] stored_all_tunnels(cs)[i].client_vkey != key by {
                if i >= stored_all_tunnels(d).len() {
                    assert(stored_all_tunnels(cs)[i] == st[i - stored_all_tunnels(d).len()]);
                } else {
                    assert(stored_all_tunnels(cs)[i] == stored_all_tunnels(d)[i]);
                }
            }
            assert forall|i: int| 0 <= i < stored_all_hosts(cs).len() implies #[trigger] stored_all_hosts(cs)[i].client_vkey != key by {
                if i >= stored_all_hosts(d).len() {
                    assert(stored_all_hosts(cs)[i] == sh[i - stored_all_hosts(d).len()]);
                } else {
                    assert(stored_all_hosts(cs)[i] == stored_all_hosts(d)[i]);
                }
            }
        }
    }
}


proof fn lemma_restore_written_clients(cs: Seq<ClientRuntimeConfig>, next: u64)
    requires
        registry_consistent(cs),
    ensures
        restore_clients((Seq::empty(), next), written_clients(cs)).0 == written_clients(cs),
    decreases cs.len(),
{
    if cs.len() > 0 {
        let d = cs.drop_last();
        lemma_consistent_prefix(cs);
        let c = cs.last();
        assert(c == cs[cs.len() - 1]);
        lemma_restore_written_clients(d, next);
        if client_written(c) {
            lemma_written_avoid(d, c.common.vkey@);
            let w = written_clients(d);
            assert(written_clients(cs) == w.push(client_record(c@)));
            assert(written_clients(cs).drop_last() =~= w);
            assert(written_clients(cs).last() == client_record(c@));
            let inner = restore_clients((Seq::empty(), next), w);
            lemma_key_index_absent(w, c.common.vkey@);
            let r = client_record(c@);
            assert(stored_key(r) == c.common.vkey@);
            assert(ClientRuntimeConfigView {
                id: r.id,
                no_store: false,
                common: CommonConfigView {
                    vkey: r.common.vkey,
                    client: ClientInfoView { verify_key: r.common.vkey, ..r.common.client },
                    ..r.common
                },
                ..r
            } == r);
        }
    }
}

proof fn lemma_restore_written_tunnels(cs: Seq<ClientRuntimeConfig>, next: u64)
    requires
        registry_consistent(cs),
    ensures
        restore_tunnels((written_clients(cs), next), stored_all_tunnels(cs)).0 == with_tunnels(cs),
    decreases cs.len(),
{
    if cs.len() > 0 {
        let d = cs.drop_last();
        lemma_consistent_prefix(cs);
        let c = cs.last();
        assert(c == cs[cs.len() - 1]);
        lemma_restore_written_tunnels(d, next);
        if client_written(c) {
            lemma_written_avoid(d, c.common.vkey@);
            lemma_last_tunnels(cs);
            let r = client_record(c@);
            let w = written_clients(d);
            let t = stored_all_tunnels(d);
            let sl = stored_tunnels(tunnels_view(c.tunnels@));
            lemma_restore_tunnels_concat((w.push(r), next), t, sl);
            lemma_restore_tunnels_frame(w, r, next, t);
            let mid = restore_tunnels((w, next), t);
            lemma_restore_tunnels_fill(mid.0, r, mid.1, sl);
            assert(r.tunnels + sl =~= sl);
        }
    }
}

proof fn lemma_restore_written_hosts(cs: Seq<ClientRuntimeConfig>, next: u64)
    requires
        registry_consistent(cs),
    ensures
        restore_hosts((with_tunnels(cs), next), stored_all_hosts(cs)).0 == stored_configs(cs),
    decreases cs.len(),
{
    if cs.len() > 0 {
        let d = cs.drop_last();
        lemma_consistent_prefix(cs);
        let c = cs.last();
        assert(c == cs[cs.len() - 1]);
        lemma_restore_written_hosts(d, next);
        if client_written(c) {
            lemma_written_avoid(d, c.common.vkey@);
            lemma_last_tunnels(cs);
            let r = tunnels_record(c);
            let w = with_tunnels(d);
            let h = stored_all_hosts(d);
            let sl = stored_hosts(hosts_view(c.hosts@));
            lemma_restore_hosts_concat((w.push(r), next), h, sl);
            lemma_restore_hosts_frame(w, r, next, h);
            let mid = restore_hosts((w, next), h);
            lemma_restore_hosts_fill(mid.0, r, mid.1, sl);
            assert(r.hosts + sl =~= sl);
        }
    }
}

/// What reading gives back of a write: rebuilding clients from the records
/// [`persist_records`] writes for them gives back each written client with
/// its settings, its stored tunnels and its stored routes, in order,
/// whatever the id sequence, as long as the clients are as the registry
/// keeps them (see [`registry_consistent`]).
pub proof fn lemma_restore_after_persist(cs: Seq<ClientRuntimeConfig>, next: u64)
    requires
        registry_consistent(cs),
    ensures
        spec_restore(next, written_clients(cs), stored_all_tunnels(cs), stored_all_hosts(cs)).0 == stored_configs(cs),
{
    lemma_restore_written_clients(cs, next);
    let st = restore_clients((Seq::empty(), next), written_clients(cs));
    lemma_restore_written_tunnels(cs, st.1);
    let st2 = restore_tunnels(st, stored_all_tunnels(cs));
    assert(st == (written_clients(cs), st.1));
    lemma_restore_written_hosts(cs, st2.1);
    assert(st2 == (with_tunnels(cs), st2.1));
}



// ---------------------------------------------------------------------------
// Changes that keep the registry consistent
// ---------------------------------------------------------------------------

/// What [`registry_consistent`] asks of one client.
pub open spec fn client_consistent(c: ClientRuntimeConfig) -> bool {
    &&& client_written(c) ==> {
        &&& c.common.vkey@.len() > 0
        &&& c.id != 0
        &&& c.common.client.verify_key@ == c.common.vkey@
    }
    &&& forall|j: int| 0 <= j < c.tunnels@.len() && !(#[trigger] c.tunnels@[j]).no_store ==> {
        &&& c.tunnels@[j].client_vkey@ == c.common.vkey@
        &&& c.tunnels@[j].id != 0
    }
    &&& forall|j: int| 0 <= j < c.hosts@.len() && !(#[trigger] c.hosts@[j]).no_store ==> {
        &&& c.hosts@[j].client_vkey@ == c.common.vkey@
        &&& c.hosts@[j].id != 0
    }
}

proof fn lemma_consistent_each(cs: Seq<ClientRuntimeConfig>)
    requires
        registry_consistent(cs),
    ensures
        forall|i: int| 0 <= i < cs.len() ==> client_consistent(#[trigger] cs[i]),
{
    assert forall|i: int| 0 <= i < cs.len() implies client_consistent(#[trigger] cs[i]) by {
        assert forall|j: int| 0 <= j < cs[i].tunnels@.len() && !(#[trigger] cs[i].tunnels@[j]).no_store implies {
            &&& cs[i].tunnels@[j].client_vkey@ == cs[i].common.vkey@
            &&& cs[i].tunnels@[j].id != 0
        } by {}
        assert forall|j: int| 0 <= j < cs[i].hosts@.len() && !(#[trigger] cs[i].hosts@[j]).no_store implies {
            &&& cs[i].hosts@[j].client_vkey@ == cs[i].common.vkey@
            &&& cs[i].hosts@[j].id != 0
        } by {}
    }
}

proof fn lemma_consistent_of_each(cs: Seq<ClientRuntimeConfig>)
    requires
        forall|i: int, j: int| 0 <= i < j < cs.len() ==> #[trigger] cs[i].common.vkey@ != #[trigger] cs[j].common.vkey@,
        forall|i: int| 0 <= i < cs.len() ==> client_consistent(#[trigger] cs[i]),
    ensures
        registry_consistent(cs),
{
    assert forall|i: int, j: int| 0 <= i < cs.len() && 0 <= j < cs[i].tunnels@.len() && !(#[trigger] cs[i].tunnels@[j]).no_store implies {
        &&& cs[i].tunnels@[j].client_vkey@ == cs[i].common.vkey@
        &&& cs[i].tunnels@[j].id != 0
    } by {
        assert(client_consistent(cs[i]));
    }
    assert forall|i: int, j: int| 0 <= i < cs.len() && 0 <= j < cs[i].hosts@.len() && !(#[trigger] cs[i].hosts@[j]).no_store implies {
        &&& cs[i].hosts@[j].client_vkey@ == cs[i].common.vkey@
        &&& cs[i].hosts@[j].id != 0
    } by {
        assert(client_consistent(cs[i]));
    }
}

/// Changing one client, keeping its key and its own consistency, keeps
/// the table consistent.
proof fn lemma_update_consistent(before: Seq<ClientRuntimeConfig>, after: Seq<ClientRuntimeConfig>, i: int)
    requires
        registry_consistent(before),
        0 <= i < before.len(),
        after.len() == before.len(),
        forall|k: int| 0 <= k < before.len() && k != i ==> #[trigger] after[k] == before[k],
        after[i].common.vkey@ == before[i].common.vkey@,
        client_consistent(after[i]),
    ensures
        registry_consistent(after),
{
    lemma_consistent_each(before);
    assert forall|a: int, b: int| 0 <= a < b < after.len() implies #[trigger] after[a].common.vkey@ != #[trigger] after[b].common.vkey@ by {
        assert(after[a].common.vkey@ == before[a].common.vkey@);
        assert(after[b].common.vkey@ == before[b].common.vkey@);
    }
    assert forall|k: int| 0 <= k < after.len() implies client_consistent(#[trigger] after[k]) by {
        if k != i {
            assert(after[k] == before[k]);
        }
    }
    lemma_consistent_of_each(after);
}

proof fn lemma_stored_tunnels_empty(tv: Seq<TunnelView>)
    ensures
        stored_tunnels(tv).len() == 0 <==> forall|k: int| 0 <= k < tv.len() ==> (#[trigger] tv[k]).no_store,
    decreases tv.len(),
{
    if tv.len() > 0 {
        lemma_stored_tunnels_empty(tv.drop_last());
        assert(tv.last() == tv[tv.len() - 1]);
        assert(forall|k: int| 0 <= k < tv.len() - 1 ==> tv.drop_last()[k] == tv[k]);
    }
}

proof fn lemma_stored_hosts_empty(hv: Seq<HostView>)
    ensures
        stored_hosts(hv).len() == 0 <==> forall|k: int| 0 <= k < hv.len() ==> (#[trigger] hv[k]).no_store,
    decreases hv.len(),
{
    if hv.len() > 0 {
        lemma_stored_hosts_empty(hv.drop_last());
        assert(hv.last() == hv[hv.len() - 1]);
        assert(forall|k: int| 0 <= k < hv.len() - 1 ==> hv.drop_last()[k] == hv[k]);
    }
}

/// A client whose routes keep their flags, keys and ids, and whose other
/// fields stay, stays consistent; it is written exactly when it was.
proof fn lemma_same_tunnel_flags(c: ClientRuntimeConfig, d: ClientRuntimeConfig)
    requires
        client_consistent(c),
        (crate::model::ClientRuntimeConfigView { tunnels: d@.tunnels, ..c@ }) == d@,
        d.tunnels@.len() <= c.tunnels@.len(),
        forall|k: int| 0 <= k < d.tunnels@.len() ==> (exists|m: int| 0 <= m < c.tunnels@.len()
            && (#[trigger] d.tunnels@[k]).no_store == c.tunnels@[m].no_store
            && d.tunnels@[k].client_vkey@ == c.tunnels@[m].client_vkey@
            && d.tunnels@[k].id == c.tunnels@[m].id),
    ensures
        client_consistent(d),
{
    let tc = tunnels_view(c.tunnels@);
    let td = tunnels_view(d.tunnels@);
    lemma_stored_tunnels_empty(tc);
    lemma_stored_tunnels_empty(td);
    assert(hosts_view(d.hosts@) == hosts_view(c.hosts@));
    if client_written(d) {
        if !client_written(c) {
            assert forall|k: int| 0 <= k < td.len() implies (#[trigger] td[k]).no_store by {
                let m = choose|m: int| 0 <= m < c.tunnels@.len()
                    && d.tunnels@[k].no_store == c.tunnels@[m].no_store
                    && d.tunnels@[k].client_vkey@ == c.tunnels@[m].client_vkey@
                    && d.tunnels@[k].id == c.tunnels@[m].id;
                assert(tc[m].no_store);
            }
        }
    }
    assert forall|j: int| 0 <= j < d.tunnels@.len() && !(#[trigger] d.tunnels@[j]).no_store implies {
        &&& d.tunnels@[j].client_vkey@ == d.common.vkey@
        &&& d.tunnels@[j].id != 0
    } by {
        let m = choose|m: int| 0 <= m < c.tunnels@.len()
            && d.tunnels@[j].no_store == c.tunnels@[m].no_store
            && d.tunnels@[j].client_vkey@ == c.tunnels@[m].client_vkey@
            && d.tunnels@[j].id == c.tunnels@[m].id;
        assert(!c.tunnels@[m].no_store);
    }
    assert forall|j: int| 0 <= j < d.hosts@.len() && !(#[trigger] d.hosts@[j]).no_store implies {
        &&& d.hosts@[j].client_vkey@ == d.common.vkey@
        &&& d.hosts@[j].id != 0
    } by {
        assert(hosts_view(d.hosts@)[j] == hosts_view(c.hosts@)[j]);
        assert(d.hosts@[j]@ == c.hosts@[j]@);
    }
}

/// As [`lemma_same_tunnel_flags`], for routes.
proof fn lemma_same_host_flags(c: ClientRuntimeConfig, d: ClientRuntimeConfig)
    requires
        client_consistent(c),
        (crate::model::ClientRuntimeConfigView { hosts: d@.hosts, ..c@ }) == d@,
        forall|k: int| 0 <= k < d.hosts@.len() ==> (exists|m: int| 0 <= m < c.hosts@.len()
            && (#[trigger] d.hosts@[k]).no_store == c.hosts@[m].no_store
            && d.hosts@[k].client_vkey@ == c.hosts@[m].client_vkey@
            && d.hosts@[k].id == c.hosts@[m].id),
    ensures
        client_consistent(d),
{
    let hc = hosts_view(c.hosts@);
    let hd = hosts_view(d.hosts@);
    lemma_stored_hosts_empty(hc);
    lemma_stored_hosts_empty(hd);
    assert(tunnels_view(d.tunnels@) == tunnels_view(c.tunnels@));
    if client_written(d) {
        if !client_written(c) {
            assert forall|k: int| 0 <= k < hd.len() implies (#[trigger] hd[k]).no_store by {
                let m = choose|m: int| 0 <= m < c.hosts@.len()
                    && d.hosts@[k].no_store == c.hosts@[m].no_store
                    && d.hosts@[k].client_vkey@ == c.hosts@[m].client_vkey@
                    && d.hosts@[k].id == c.hosts@[m].id;
                assert(hc[m].no_store);
            }
        }
    }
    assert forall|j: int| 0 <= j < d.hosts@.len() && !(#[trigger] d.hosts@[j]).no_store implies {
        &&& d.hosts@[j].client_vkey@ == d.common.vkey@
        &&& d.hosts@[j].id != 0
    } by {
        let m = choose|m: int| 0 <= m < c.hosts@.len()
            && d.hosts@[j].no_store == c.hosts@[m].no_store
            && d.hosts@[j].client_vkey@ == c.hosts@[m].client_vkey@
            && d.hosts@[j].id == c.hosts@[m].id;
        assert(!c.hosts@[m].no_store);
    }
    assert forall|j: int| 0 <= j < d.tunnels@.len() && !(#[trigger] d.tunnels@[j]).no_store implies {
        &&& d.tunnels@[j].client_vkey@ == d.common.vkey@
        &&& d.tunnels@[j].id != 0
    } by {
        assert(tunnels_view(d.tunnels@)[j] == tunnels_view(c.tunnels@)[j]);
        assert(d.tunnels@[j]@ == c.tunnels@[j]@);
    }
}


proof fn lemma_without_host_from(hv: Seq<HostView>, id: u64)
    ensures
        forall|k: int| 0 <= k < without_host(hv, id).len() ==> (exists|m: int| 0 <= m < hv.len() && #[trigger] without_host(hv, id)[k] == hv[m]),
    decreases hv.len(),
{
    if hv.len() > 0 {
        let d = hv.drop_last();
        lemma_without_host_from(d, id);
        assert forall|k: int| 0 <= k < without_host(hv, id).len() implies (exists|m: int| 0 <= m < hv.len() && #[trigger] without_host(hv, id)[k] == hv[m]) by {
            if hv.last().id != id && k == without_host(d, id).len() {
                assert(without_host(hv, id)[k] == hv[hv.len() - 1]);
            } else {
                assert(without_host(hv, id)[k] == without_host(d, id)[k]);
                let m = choose|m: int| 0 <= m < d.len() && without_host(d, id)[k] == d[m];
                assert(d[m] == hv[m]);
            }
        }
    }
}

proof fn lemma_status_keeps_client(c: ClientRuntimeConfig, d: ClientRuntimeConfig, status: bool)
    requires
        client_consistent(c),
        d@ == (crate::model::ClientRuntimeConfigView {
            common: crate::model::CommonConfigView {
                client: crate::model::ClientInfoView { status: status, ..c@.common.client },
                ..c@.common
            },
            ..c@
        }),
    ensures
        client_consistent(d),
{
    assert(tunnels_view(d.tunnels@) == tunnels_view(c.tunnels@));
    assert(hosts_view(d.hosts@) == hosts_view(c.hosts@));
    assert forall|j: int| 0 <= j < d.tunnels@.len() && !(#[trigger] d.tunnels@[j]).no_store implies {
        &&& d.tunnels@[j].client_vkey@ == d.common.vkey@
        &&& d.tunnels@[j].id != 0
    } by {
        assert(tunnels_view(d.tunnels@)[j] == tunnels_view(c.tunnels@)[j]);
    }
    assert forall|j: int| 0 <= j < d.hosts@.len() && !(#[trigger] d.hosts@[j]).no_store implies {
        &&& d.hosts@[j].client_vkey@ == d.common.vkey@
        &&& d.hosts@[j].id != 0
    } by {
        assert(hosts_view(d.hosts@).len() == d.hosts@.len());
        assert(hosts_view(c.hosts@).len() == c.hosts@.len());
        assert(hosts_view(d.hosts@)[j] == d.hosts@[j]@);
        assert(hosts_view(c.hosts@)[j] == c.hosts@[j]@);
        assert(!c.hosts@[j].no_store);
    }
}

/// What every change of the table keeps: starting, stopping or deleting a
/// tunnel, opening, closing or deleting a route, and enabling, disabling
/// or deleting a client leave a consistent registry consistent (so what
/// is written of it is still read back as it is).
pub proof fn lemma_changes_keep_consistency(before: Seq<ClientRuntimeConfig>, after: Seq<ClientRuntimeConfig>, id: u64, flag: bool)
    requires
        registry_consistent(before),
        tunnel_status_in(before, after, id, flag) || tunnel_removed_in(before, after, id)
            || host_closed_in(before, after, id, flag) || host_removed_in(before, after, id)
            || client_status_in(before, after, id, flag) || client_removed_in(before, after, id),
    ensures
        registry_consistent(after),
{
    lemma_consistent_each(before);
    lemma_tunnel_pos(before, id);
    lemma_host_pos(before, id);
    lemma_client_index(before, id);
    if tunnel_status_in(before, after, id, flag) {
        if let Some((i, j)) = spec_tunnel_pos(before, id) {
            let c = before[i];
            let d = after[i];
            assert forall|k: int| 0 <= k < d.tunnels@.len() implies (exists|m: int| 0 <= m < c.tunnels@.len()
                && (#[trigger] d.tunnels@[k]).no_store == c.tunnels@[m].no_store
                && d.tunnels@[k].client_vkey@ == c.tunnels@[m].client_vkey@
                && d.tunnels@[k].id == c.tunnels@[m].id) by {
                if k == j {
                    assert(d.tunnels@[j]@ == (TunnelView { status: flag, run_status: flag, ..c.tunnels@[j]@ }));
                }
                assert(d.tunnels@[k].no_store == c.tunnels@[k].no_store);
            }
            lemma_same_tunnel_flags(c, d);
            lemma_update_consistent(before, after, i);
        }
    } else if tunnel_removed_in(before, after, id) {
        if let Some((i, j)) = spec_tunnel_pos(before, id) {
            let c = before[i];
            let d = after[i];
            assert forall|k: int| 0 <= k < d.tunnels@.len() implies (exists|m: int| 0 <= m < c.tunnels@.len()
                && (#[trigger] d.tunnels@[k]).no_store == c.tunnels@[m].no_store
                && d.tunnels@[k].client_vkey@ == c.tunnels@[m].client_vkey@
                && d.tunnels@[k].id == c.tunnels@[m].id) by {
                if k < j {
                    assert(d.tunnels@[k] == c.tunnels@[k]);
                } else {
                    assert(d.tunnels@[k] == c.tunnels@[k + 1]);
                }
            }
            lemma_same_tunnel_flags(c, d);
            lemma_update_consistent(before, after, i);
        }
    } else if host_closed_in(before, after, id, flag) {
        if let Some((i, j)) = spec_host_pos(before, id) {
            let c = before[i];
            let d = after[i];
            assert forall|k: int| 0 <= k < d.hosts@.len() implies (exists|m: int| 0 <= m < c.hosts@.len()
                && (#[trigger] d.hosts@[k]).no_store == c.hosts@[m].no_store
                && d.hosts@[k].client_vkey@ == c.hosts@[m].client_vkey@
                && d.hosts@[k].id == c.hosts@[m].id) by {
                if k == j {
                    assert(d.hosts@[j]@ == (HostView { is_close: flag, ..c.hosts@[j]@ }));
                }
                assert(d.hosts@[k].no_store == c.hosts@[k].no_store);
            }
            lemma_same_host_flags(c, d);
            lemma_update_consistent(before, after, i);
        }
    } else if host_removed_in(before, after, id) {
        if let Some((i, j)) = spec_host_pos(before, id) {
            let c = before[i];
            let d = after[i];
            lemma_without_host_from(hosts_view(c.hosts@), id);
            assert forall|k: int| 0 <= k < d.hosts@.len() implies (exists|m: int| 0 <= m < c.hosts@.len()
                && (#[trigger] d.hosts@[k]).no_store == c.hosts@[m].no_store
                && d.hosts@[k].client_vkey@ == c.hosts@[m].client_vkey@
                && d.hosts@[k].id == c.hosts@[m].id) by {
                let w = without_host(hosts_view(c.hosts@), id);
                assert(hosts_view(d.hosts@)[k] == w[k]);
                let m = choose|m: int| 0 <= m < hosts_view(c.hosts@).len() && w[k] == hosts_view(c.hosts@)[m];
                assert(d.hosts@[k]@ == c.hosts@[m]@);
            }
            lemma_same_host_flags(c, d);
            lemma_update_consistent(before, after, i);
        }
    } else if client_status_in(before, after, id, flag) {
        if let Some(i) = client_index(before, id) {
            lemma_status_keeps_client(before[i], after[i], flag);
            assert(after[i].common.vkey@ == before[i].common.vkey@);
            lemma_update_consistent(before, after, i);
        }
    } else {
        if let Some(i) = client_index(before, id) {
            assert forall|a: int, b: int| 0 <= a < b < after.len() implies #[trigger] after[a].common.vkey@ != #[trigger] after[b].common.vkey@ by {
                let a0 = if a < i { a } else { a + 1 };
                let b0 = if b < i { b } else { b + 1 };
                assert(after[a] == before[a0]);
                assert(after[b] == before[b0]);
            }
            assert forall|k: int| 0 <= k < after.len() implies client_consistent(#[trigger] after[k]) by {
                if k < i {
                    assert(after[k] == before[k]);
                } else {
                    assert(after[k] == before[k + 1]);
                }
            }
            lemma_consistent_of_each(after);
        }
    }
}


} // verus!
