//! The layered configuration store.
//!
//! Configuration is a set of `KEY=VALUE` pairs.  A `ConfigStore` holds the
//! pairs in memory, keys strictly sorted; `load` merges the lines of a
//! persisted file into it, and `render` writes it back out deterministically.
//! The surrounding binary does the actual file reads and writes and hands the
//! contents through here.

use vstd::prelude::*;

use crate::text::chars_eq;
use crate::text::chars_lt;
use crate::text::find_char;
use crate::text::is_space_char;
use crate::text::lemma_find_at;
use crate::text::lemma_find_props;
use crate::text::lemma_lex_connected;
use crate::text::lemma_lex_irrefl;
use crate::text::lemma_lex_trans;
use crate::text::lemma_lines_unlines;
use crate::text::lemma_trim_noop;
use crate::text::lemma_unlines_push;
use crate::text::lex_lt;
use crate::text::push_chars;
use crate::text::spec_find;
use crate::text::spec_lines;
use crate::text::spec_trim;
use crate::text::spec_unlines;
use crate::text::split_lines;
use crate::text::str_to_chars;
use crate::text::chars_to_string;
use crate::text::sub_chars;
use crate::text::trim_chars;

verus! {

/// A key that survives a render/load round trip unchanged: non-empty, no
/// whitespace at either end, not opening a comment, and free of `=` and
/// newlines.
pub open spec fn wf_key(k: Seq<char>) -> bool {
    &&& k.len() > 0
    &&& !is_space_char(k[0])
    &&& !is_space_char(k[k.len() - 1])
    &&& k[0] != '#'
    &&& forall|j: int| 0 <= j < k.len() ==> k[j] != '=' && k[j] != '\n'
}

/// A value that survives a render/load round trip unchanged: no whitespace
/// at either end and no newlines.
pub open spec fn wf_value(v: Seq<char>) -> bool {
    &&& v.len() == 0 || (!is_space_char(v[0]) && !is_space_char(v[v.len() - 1]))
    &&& forall|j: int| 0 <= j < v.len() ==> v[j] != '\n'
}

pub struct StoreEntry {
    pub key: Vec<char>,
    pub value: Vec<char>,
}

pub struct ConfigStore {
    pub entries: Vec<StoreEntry>,
}

/// The mapping that a list of entries denotes; a later entry for the same
/// key overrides an earlier one.
pub open spec fn entries_map(es: Seq<StoreEntry>) -> Map<Seq<char>, Seq<char>>
    decreases es.len(),
{
    if es.len() == 0 {
        Map::empty()
    } else {
        entries_map(es.drop_last()).insert(es.last().key@, es.last().value@)
    }
}

/// What one configuration line means: trim it, skip blanks and `#` comments,
/// split at the first `=`, and trim both sides.
pub open spec fn spec_parse_line(l: Seq<char>) -> Option<(Seq<char>, Seq<char>)> {
    let t = spec_trim(l);
    if t.len() == 0 || t[0] == '#' {
        None
    } else {
        match spec_find(t, '=') {
            Some(i) => Some(
                (spec_trim(t.subrange(0, i)), spec_trim(t.subrange(i + 1, t.len() as int))),
            ),
            None => None,
        }
    }
}

/// Folding a file's lines into a base mapping, later lines overriding.
pub open spec fn spec_load_lines(
    m: Map<Seq<char>, Seq<char>>,
    ls: Seq<Seq<char>>,
) -> Map<Seq<char>, Seq<char>>
    decreases ls.len(),
{
    if ls.len() == 0 {
        m
    } else {
        match spec_parse_line(ls.last()) {
            Some(kv) => spec_load_lines(m, ls.drop_last()).insert(kv.0, kv.1),
            None => spec_load_lines(m, ls.drop_last()),
        }
    }
}

/// The mapping that loading `content` over the base mapping `m` produces.
pub open spec fn spec_load(m: Map<Seq<char>, Seq<char>>, content: Seq<char>) -> Map<
    Seq<char>,
    Seq<char>,
> {
    spec_load_lines(m, spec_lines(content))
}

/// One rendered line, `KEY=VALUE`.
pub open spec fn spec_render_line(k: Seq<char>, v: Seq<char>) -> Seq<char> {
    k + seq!['='] + v
}

pub open spec fn spec_render_entries(es: Seq<StoreEntry>) -> Seq<Seq<char>> {
    es.map_values(|e: StoreEntry| spec_render_line(e.key@, e.value@))
}

/// The whole rendered file: one line per entry, in order, each closed by a
/// newline.
pub open spec fn spec_render(es: Seq<StoreEntry>) -> Seq<char> {
    spec_unlines(spec_render_entries(es))
}

pub proof fn lemma_sorted_distinct(es: Seq<StoreEntry>)
    requires
        forall|i: int, j: int| 0 <= i < j < es.len() ==> lex_lt(es[i].key@, es[j].key@),
    ensures
        forall|i: int, j: int|
            0 <= i < es.len() && 0 <= j < es.len() && i != j ==> es[i].key@ != es[j].key@,
{
    assert forall|i: int, j: int|
        0 <= i < es.len() && 0 <= j < es.len() && i != j implies es[i].key@ != es[j].key@ by {
        if i < j {
            if es[i].key@ == es[j].key@ {
                lemma_lex_irrefl(es[i].key@);
            }
        } else {
            if es[i].key@ == es[j].key@ {
                lemma_lex_irrefl(es[j].key@);
            }
        }
    }
}

pub proof fn lemma_entries_map_index(es: Seq<StoreEntry>, i: int)
    requires
        0 <= i < es.len(),
        forall|p: int, q: int|
            0 <= p < es.len() && 0 <= q < es.len() && p != q ==> es[p].key@ != es[q].key@,
    ensures
        entries_map(es).contains_key(es[i].key@),
        entries_map(es)[es[i].key@] == es[i].value@,
    decreases es.len(),
{
    if i == es.len() - 1 {
    } else {
        let d = es.drop_last();
        assert(forall|p: int, q: int|
            0 <= p < d.len() && 0 <= q < d.len() && p != q ==> (#[trigger] d[p].key@)
                != (#[trigger] d[q].key@));
        lemma_entries_map_index(d, i);
        assert(es[i].key@ != es.last().key@);
    }
}

pub proof fn lemma_entries_map_domain(es: Seq<StoreEntry>)
    ensures
        forall|k: Seq<char>|
            #[trigger] entries_map(es).contains_key(k) <==> exists|i: int|
                0 <= i < es.len() && (#[trigger] es[i].key@) == k,
    decreases es.len(),
{
    if es.len() == 0 {
    } else {
        let d = es.drop_last();
        lemma_entries_map_domain(d);
        assert forall|k: Seq<char>| #[trigger]
            entries_map(es).contains_key(k) implies exists|i: int|
            0 <= i < es.len() && (#[trigger] es[i].key@) == k by {
            if k == es.last().key@ {
                assert(es[es.len() - 1].key@ == k);
            } else {
                assert(entries_map(d).contains_key(k));
                let i = choose|i: int| 0 <= i < d.len() && (#[trigger] d[i].key@) == k;
                assert(es[i].key@ == k);
            }
        }
        assert forall|k: Seq<char>|
            exists|i: int|
                0 <= i < es.len() && (#[trigger] es[i].key@) == k implies #[trigger] entries_map(
            es,
        ).contains_key(k) by {
            let i = choose|i: int| 0 <= i < es.len() && (#[trigger] es[i].key@) == k;
            if i == es.len() - 1 {
            } else {
                assert(d[i].key@ == k);
                assert(entries_map(d).contains_key(k));
            }
        }
    }
}

pub proof fn lemma_entries_map_update(es: Seq<StoreEntry>, i: int, e: StoreEntry)
    requires
        0 <= i < es.len(),
        es[i].key@ == e.key@,
        forall|p: int, q: int|
            0 <= p < es.len() && 0 <= q < es.len() && p != q ==> es[p].key@ != es[q].key@,
    ensures
        entries_map(es.update(i, e)) == entries_map(es).insert(e.key@, e.value@),
    decreases es.len(),
{
    let u = es.update(i, e);
    if i == es.len() - 1 {
        assert(u.drop_last() =~= es.drop_last());
        assert(u.last() == e);
        assert(entries_map(es.drop_last()).insert(e.key@, e.value@) =~= entries_map(
            es,
        ).insert(e.key@, e.value@));
    } else {
        let d = es.drop_last();
        assert(forall|p: int, q: int|
            0 <= p < d.len() && 0 <= q < d.len() && p != q ==> (#[trigger] d[p].key@)
                != (#[trigger] d[q].key@));
        lemma_entries_map_update(d, i, e);
        assert(u.drop_last() =~= d.update(i, e));
        assert(u.last() == es.last());
        assert(e.key@ != es.last().key@);
        assert(entries_map(d).insert(e.key@, e.value@).insert(es.last().key@, es.last().value@)
            =~= entries_map(d).insert(es.last().key@, es.last().value@).insert(
            e.key@,
            e.value@,
        ));
    }
}

pub proof fn lemma_entries_map_insert(es: Seq<StoreEntry>, i: int, e: StoreEntry)
    requires
        0 <= i <= es.len(),
        forall|p: int| 0 <= p < es.len() ==> es[p].key@ != e.key@,
    ensures
        entries_map(es.insert(i, e)) == entries_map(es).insert(e.key@, e.value@),
    decreases es.len(),
{
    let u = es.insert(i, e);
    if i == es.len() {
        assert(u.drop_last() =~= es);
        assert(u.last() == e);
    } else {
        let d = es.drop_last();
        assert(forall|p: int| 0 <= p < d.len() ==> (#[trigger] d[p].key@) != e.key@);
        lemma_entries_map_insert(d, i, e);
        assert(u.drop_last() =~= d.insert(i, e));
        assert(u.last() == es.last());
        assert(e.key@ != es.last().key@);
        assert(entries_map(d).insert(e.key@, e.value@).insert(es.last().key@, es.last().value@)
            =~= entries_map(d).insert(es.last().key@, es.last().value@).insert(
            e.key@,
            e.value@,
        ));
    }
}

impl ConfigStore {
    /// Keys stand in strictly ascending order, so each key occurs once.
    pub open spec fn wf(self) -> bool {
        forall|i: int, j: int|
            0 <= i < j < self.entries@.len() ==> lex_lt(
                self.entries@[i].key@,
                self.entries@[j].key@,
            )
    }

    /// Every entry would survive a render/load round trip.
    pub open spec fn kv_wf(self) -> bool {
        forall|i: int|
            0 <= i < self.entries@.len() ==> wf_key(#[trigger] self.entries@[i].key@) && wf_value(
                self.entries@[i].value@,
            )
    }

    /// The mapping this store holds.
    pub open spec fn as_map(self) -> Map<Seq<char>, Seq<char>> {
        entries_map(self.entries@)
    }

    pub fn new() -> (r: ConfigStore)
        ensures
            r.wf(),
            r.kv_wf(),
            r.as_map() == Map::<Seq<char>, Seq<char>>::empty(),
    {
        ConfigStore { entries: Vec::new() }
    }

    pub fn get<'a>(&'a self, key: &Vec<char>) -> (r: Option<&'a Vec<char>>)
        requires
            self.wf(),
        ensures
            match r {
                Some(v) => self.as_map().contains_key(key@) && self.as_map()[key@] == v@,
                None => !self.as_map().contains_key(key@),
            },
    {
        let n = self.entries.len();
        let mut i: usize = 0;
        while i < n
            invariant
                0 <= i <= n,
                n == self.entries@.len(),
                self.wf(),
                forall|j: int| 0 <= j < i ==> (#[trigger] self.entries@[j].key@) != key@,
            decreases n - i,
        {
            if chars_eq(&self.entries[i].key, key) {
                proof {
                    lemma_sorted_distinct(self.entries@);
                    lemma_entries_map_index(self.entries@, i as int);
                }
                return Some(&self.entries[i].value);
            }
            i += 1;
        }
        proof {
            lemma_entries_map_domain(self.entries@);
        }
        None
    }

    /// Looks a key up, both given and returned as plain strings.
    pub fn get_str(&self, key: &str) -> (r: Option<String>)
        requires
            self.wf(),
        ensures
            match r {
                Some(v) => self.as_map().contains_key(key@) && self.as_map()[key@] == v@,
                None => !self.as_map().contains_key(key@),
            },
    {
        let k = str_to_chars(key);
        match self.get(&k) {
            Some(v) => Some(chars_to_string(v)),
            None => None,
        }
    }

    /// Inserts or overwrites one pair, keeping the keys sorted.
    pub fn set(&mut self, key: Vec<char>, value: Vec<char>)
        requires
            old(self).wf(),
        ensures
            final(self).wf(),
            final(self).as_map() == old(self).as_map().insert(key@, value@),
            old(self).kv_wf() && wf_key(key@) && wf_value(value@) ==> final(self).kv_wf(),
    {
        let ghost es0 = self.entries@;
        let ghost kv = key@;
        let n = self.entries.len();
        let mut i: usize = 0;
        while i < n && chars_lt(&self.entries[i].key, &key)
            invariant
                0 <= i <= n,
                n == self.entries@.len(),
                self.entries@ == es0,
                key@ == kv,
                forall|j: int| 0 <= j < i ==> lex_lt(#[trigger] es0[j].key@, kv),
            decreases n - i,
        {
            i += 1;
        }
        let at_end = i >= n;
        let same = !at_end && chars_eq(&self.entries[i].key, &key);
        let e = StoreEntry { key, value };
        if same {
            proof {
                lemma_sorted_distinct(es0);
            }
            self.entries.remove(i);
            self.entries.insert(i, e);
            proof {
                assert(self.entries@ =~= es0.update(i as int, e));
                lemma_entries_map_update(es0, i as int, e);
                assert forall|p: int, q: int|
                    0 <= p < q < self.entries@.len() implies lex_lt(
                    self.entries@[p].key@,
                    self.entries@[q].key@,
                ) by {
                    assert(self.entries@[p].key@ == es0[p].key@);
                    assert(self.entries@[q].key@ == es0[q].key@);
                }
            }
        } else {
            proof {
                assert forall|j: int| i <= j < n implies lex_lt(kv, #[trigger] es0[j].key@) by {
                    if !at_end {
                        if !lex_lt(kv, es0[i as int].key@) {
                            lemma_lex_connected(es0[i as int].key@, kv);
                            assert(es0[i as int].key@ == kv);
                            assert(false);
                        }
                        if j > i {
                            lemma_lex_trans(kv, es0[i as int].key@, es0[j].key@);
                        }
                    }
                }
                assert forall|j: int| 0 <= j < n implies (#[trigger] es0[j].key@) != kv by {
                    if j < i {
                        lemma_lex_irrefl(kv);
                        if es0[j].key@ == kv {
                            assert(lex_lt(kv, kv));
                        }
                    } else {
                        lemma_lex_irrefl(kv);
                        if es0[j].key@ == kv {
                            assert(lex_lt(kv, kv));
                        }
                    }
                }
            }
            self.entries.insert(i, e);
            proof {
                lemma_entries_map_insert(es0, i as int, e);
                let ns = self.entries@;
                assert(ns =~= es0.insert(i as int, e));
                assert forall|p: int, q: int|
                    0 <= p < q < ns.len() implies lex_lt(ns[p].key@, ns[q].key@) by {
                    if q < i {
                        assert(ns[p] == es0[p] && ns[q] == es0[q]);
                    } else if p > i {
                        assert(ns[p] == es0[p - 1] && ns[q] == es0[q - 1]);
                    } else if p == i {
                        assert(ns[p] == e && ns[q] == es0[q - 1]);
                    } else if q == i {
                        assert(ns[p] == es0[p] && ns[q] == e);
                    } else {
                        // p < i < q
                        assert(ns[p] == es0[p] && ns[q] == es0[q - 1]);
                        lemma_lex_trans(es0[p].key@, kv, es0[q - 1].key@);
                    }
                }
            }
        }
    }

    /// Inserts or overwrites one pair, both halves given as plain strings.
    pub fn set_str(&mut self, key: &str, value: &str)
        requires
            old(self).wf(),
        ensures
            final(self).wf(),
            final(self).as_map() == old(self).as_map().insert(key@, value@),
            old(self).kv_wf() && wf_key(key@) && wf_value(value@) ==> final(self).kv_wf(),
    {
        let k = str_to_chars(key);
        let v = str_to_chars(value);
        self.set(k, v);
    }

    /// Merges a persisted file's lines into the store: blank and `#` lines
    /// and lines without `=` are skipped, later lines override earlier ones
    /// and the whole file overrides what the store already held.
    pub fn load(&mut self, content: &str)
        requires
            old(self).wf(),
        ensures
            final(self).wf(),
            final(self).as_map() == spec_load(old(self).as_map(), content@),
    {
        let cs = str_to_chars(content);
        let lines = split_lines(&cs);
        let ghost lviews = lines@.map_values(|l: Vec<char>| l@);
        let ghost m0 = self.as_map();
        let n = lines.len();
        let mut i: usize = 0;
        proof {
            assert(lviews.subrange(0, 0) =~= Seq::<Seq<char>>::empty());
        }
        while i < n
            invariant
                0 <= i <= n,
                n == lines@.len(),
                lviews == lines@.map_values(|l: Vec<char>| l@),
                self.wf(),
                self.as_map() == spec_load_lines(m0, lviews.subrange(0, i as int)),
            decreases n - i,
        {
            let ghost before = self.as_map();
            let t = trim_chars(&lines[i]);
            if t.len() > 0 && !(t[0] == '#') {
                match find_char(&t, '=') {
                    Some(p) => {
                        proof {
                            lemma_find_props(t@, '=');
                        }
                        let kraw = sub_chars(&t, 0, p);
                        let k = trim_chars(&kraw);
                        let vraw = sub_chars(&t, p + 1, t.len());
                        let v = trim_chars(&vraw);
                        proof {
                            assert(spec_parse_line(lviews[i as int]) == Some((k@, v@)));
                        }
                        self.set(k, v);
                    },
                    None => {
                        proof {
                            assert(spec_parse_line(lviews[i as int]) == None::<(
                                Seq<char>,
                                Seq<char>,
                            )>);
                        }
                    },
                }
            } else {
                proof {
                    assert(spec_parse_line(lviews[i as int]) == None::<(Seq<char>, Seq<char>)>);
                }
            }
            i += 1;
            proof {
                let pre = lviews.subrange(0, i - 1);
                let cur = lviews.subrange(0, i as int);
                assert(cur.drop_last() =~= pre);
                assert(cur.last() == lviews[i - 1]);
            }
        }
        proof {
            assert(lviews.subrange(0, n as int) =~= lviews);
        }
    }

    /// The persisted form: one `KEY=VALUE` line per entry, in key order,
    /// each closed by a newline.
    pub fn render(&self) -> (r: String)
        ensures
            r@ == spec_render(self.entries@),
    {
        let mut out: Vec<char> = Vec::new();
        let n = self.entries.len();
        let mut i: usize = 0;
        proof {
            assert(spec_render_entries(self.entries@.subrange(0, 0)) =~= Seq::<Seq<char>>::empty());
        }
        while i < n
            invariant
                0 <= i <= n,
                n == self.entries@.len(),
                out@ == spec_unlines(spec_render_entries(self.entries@.subrange(0, i as int))),
            decreases n - i,
        {
            let ghost pre = spec_render_entries(self.entries@.subrange(0, i as int));
            push_chars(&mut out, &self.entries[i].key);
            out.push('=');
            push_chars(&mut out, &self.entries[i].value);
            out.push('\n');
            i += 1;
            proof {
                let e = self.entries@[i - 1];
                let line = spec_render_line(e.key@, e.value@);
                lemma_unlines_push(pre, line);
                assert(spec_render_entries(self.entries@.subrange(0, i as int)) =~= pre.push(line));
                assert(out@ =~= spec_unlines(pre) + line + seq!['\n']);
            }
        }
        proof {
            assert(self.entries@.subrange(0, n as int) =~= self.entries@);
        }
        chars_to_string(&out)
    }
}

/// One rendered line reads back as exactly its entry.
pub proof fn lemma_parse_render_line(k: Seq<char>, v: Seq<char>)
    requires
        wf_key(k),
        wf_value(v),
    ensures
        spec_parse_line(spec_render_line(k, v)) == Some((k, v)),
{
    let line = spec_render_line(k, v);
    assert(line.len() == k.len() + 1 + v.len());
    assert(line[0] == k[0]);
    if v.len() > 0 {
        assert(line[line.len() - 1] == v[v.len() - 1]);
    } else {
        assert(line[line.len() - 1] == '=');
    }
    lemma_trim_noop(line);
    assert(spec_trim(line) == line);
    assert forall|j: int| 0 <= j < k.len() implies line[j] != '=' by {
        assert(line[j] == k[j]);
    }
    assert(line[k.len() as int] == '=');
    lemma_find_at(line, '=', k.len() as int);
    assert(line.subrange(0, k.len() as int) =~= k);
    assert(line.subrange(k.len() as int + 1, line.len() as int) =~= v);
    lemma_trim_noop(k);
    lemma_trim_noop(v);
}

/// Law: loading a rendered store over any base restores exactly the store's
/// entries on top of the base.
pub proof fn lemma_load_render(base: Map<Seq<char>, Seq<char>>, s: ConfigStore)
    ensures
        s.kv_wf() ==> spec_load(base, spec_render(s.entries@)) == spec_load_entries(
            base,
            s.entries@,
        ),
{
    if s.kv_wf() {
        assert(forall|i: int|
            0 <= i < s.entries@.len() ==> wf_key(#[trigger] s.entries@[i].key@) && wf_value(
                s.entries@[i].value@,
            ));
        lemma_load_render_entries(base, s.entries@);
    }
}

/// The mapping a list of entries lays over a base.
pub open spec fn spec_load_entries(
    base: Map<Seq<char>, Seq<char>>,
    es: Seq<StoreEntry>,
) -> Map<Seq<char>, Seq<char>>
    decreases es.len(),
{
    if es.len() == 0 {
        base
    } else {
        spec_load_entries(base, es.drop_last()).insert(es.last().key@, es.last().value@)
    }
}

proof fn lemma_load_render_entries(base: Map<Seq<char>, Seq<char>>, es: Seq<StoreEntry>)
    requires
        forall|i: int| 0 <= i < es.len() ==> wf_key(#[trigger] es[i].key@) && wf_value(es[i].value@),
    ensures
        spec_load(base, spec_unlines(spec_render_entries(es))) == spec_load_entries(base, es),
    decreases es.len(),
{
    let rls = spec_render_entries(es);
    assert forall|i: int, j: int|
        0 <= i < rls.len() && 0 <= j < rls[i].len() implies #[trigger] rls[i][j] != '\n' by {
        let e = es[i];
        let line = spec_render_line(e.key@, e.value@);
        assert(rls[i] == line);
        if j < e.key@.len() {
            assert(line[j] == e.key@[j]);
        } else if j == e.key@.len() {
            assert(line[j] == '=');
        } else {
            assert(line[j] == e.value@[j - e.key@.len() - 1]);
        }
    }
    lemma_lines_unlines(rls);
    lemma_load_lines_render(base, es);
}

proof fn lemma_load_lines_render(base: Map<Seq<char>, Seq<char>>, es: Seq<StoreEntry>)
    requires
        forall|i: int| 0 <= i < es.len() ==> wf_key(#[trigger] es[i].key@) && wf_value(es[i].value@),
    ensures
        spec_load_lines(base, spec_render_entries(es)) == spec_load_entries(base, es),
    decreases es.len(),
{
    let rls = spec_render_entries(es);
    if es.len() == 0 {
        assert(rls =~= Seq::<Seq<char>>::empty());
    } else {
        let d = es.drop_last();
        assert forall|i: int|
            0 <= i < d.len() implies wf_key(#[trigger] d[i].key@) && wf_value(d[i].value@) by {
            assert(wf_key(es[i].key@) && wf_value(es[i].value@));
            assert(d[i].key@ == es[i].key@);
            assert(d[i].value@ == es[i].value@);
        }
        lemma_load_lines_render(base, d);
        assert(rls.drop_last() =~= spec_render_entries(d));
        let e = es.last();
        assert(rls.last() == spec_render_line(e.key@, e.value@));
        lemma_parse_render_line(e.key@, e.value@);
    }
}

/// The entries of a well-formed store lay down exactly the store's mapping:
/// on an empty base the overlay is the mapping itself.
pub proof fn lemma_load_entries_empty(es: Seq<StoreEntry>)
    ensures
        spec_load_entries(Map::<Seq<char>, Seq<char>>::empty(), es) == entries_map(es),
    decreases es.len(),
{
    if es.len() > 0 {
        lemma_load_entries_empty(es.drop_last());
    }
}

/// Law: a render/load round trip through an empty store restores the
/// store's mapping exactly.
pub proof fn lemma_round_trip(s: ConfigStore)
    requires
        s.kv_wf(),
    ensures
        spec_load(Map::<Seq<char>, Seq<char>>::empty(), spec_render(s.entries@)) == s.as_map(),
{
    lemma_load_render(Map::<Seq<char>, Seq<char>>::empty(), s);
    lemma_load_entries_empty(s.entries@);
}

/// Law: setting a key twice and reloading the rendered file yields the
/// second value for that key, once, and preserves every unrelated key.
pub proof fn lemma_set_set_round_trip(
    s: ConfigStore,
    t: ConfigStore,
    k: Seq<char>,
    v1: Seq<char>,
    v2: Seq<char>,
)
    requires
        t.kv_wf(),
        t.as_map() == s.as_map().insert(k, v1).insert(k, v2),
    ensures
        spec_load(Map::<Seq<char>, Seq<char>>::empty(), spec_render(t.entries@)) == s.as_map()
            .insert(k, v2),
        spec_load(Map::<Seq<char>, Seq<char>>::empty(), spec_render(t.entries@))[k] == v2,
        forall|k2: Seq<char>|
            s.as_map().contains_key(k2) && k2 != k ==> spec_load(
                Map::<Seq<char>, Seq<char>>::empty(),
                spec_render(t.entries@),
            )[k2] == s.as_map()[k2],
{
    lemma_round_trip(t);
    assert(s.as_map().insert(k, v1).insert(k, v2) =~= s.as_map().insert(k, v2));
}

} // verus!
