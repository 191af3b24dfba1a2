//! Shell-profile mirroring.
//!
//! A shell startup file is kept holding exactly one `export KEY="VALUE"`
//! line for each mirrored key: rewriting drops every line that already
//! exports the key and appends the fresh export line at the end, leaving
//! all other lines verbatim.  The surrounding binary reads and writes the
//! actual files and hands their contents through here.

use vstd::prelude::*;

use crate::text::chars_to_string;
use crate::text::is_prefix;
use crate::text::is_space;
use crate::text::is_space_char;
use crate::text::lemma_lines_no_newline;
use crate::text::lemma_lines_unlines;
use crate::text::lemma_trim_start_prefix;
use crate::text::lemma_unlines_push;
use crate::text::push_chars;
use crate::text::spec_lines;
use crate::text::spec_trim_start;
use crate::text::spec_unlines;
use crate::text::split_lines;
use crate::text::starts_with;
use crate::text::str_to_chars;
use crate::text::sub_chars;

verus! {

/// The prefix that marks a line as the key's export line.
pub open spec fn spec_export_prefix(k: Seq<char>) -> Seq<char> {
    "export "@ + k + seq!['=']
}

/// The export line written for a key and value.
pub open spec fn spec_export_line(k: Seq<char>, v: Seq<char>) -> Seq<char> {
    "export "@ + k + seq!['='] + seq!['"'] + v + seq!['"']
}

/// A line is kept when, after its leading whitespace, it does not open with
/// the key's export prefix.
pub open spec fn line_kept(l: Seq<char>, k: Seq<char>) -> bool {
    !is_prefix(spec_export_prefix(k), spec_trim_start(l))
}

/// The lines of `ls` that are kept for key `k`, in order.
pub open spec fn kept_lines(ls: Seq<Seq<char>>, k: Seq<char>) -> Seq<Seq<char>>
    decreases ls.len(),
{
    if ls.len() == 0 {
        Seq::empty()
    } else if line_kept(ls.last(), k) {
        kept_lines(ls.drop_last(), k).push(ls.last())
    } else {
        kept_lines(ls.drop_last(), k)
    }
}

/// The rewritten profile text: every kept line, then the new export line,
/// each closed by a newline.
pub open spec fn spec_mirror(content: Seq<char>, k: Seq<char>, v: Seq<char>) -> Seq<char> {
    spec_unlines(kept_lines(spec_lines(content), k).push(spec_export_line(k, v)))
}

proof fn lemma_kept_prefix_push(ls: Seq<Seq<char>>, k: Seq<char>, l: Seq<char>)
    ensures
        kept_lines(ls.push(l), k) == if line_kept(l, k) {
            kept_lines(ls, k).push(l)
        } else {
            kept_lines(ls, k)
        },
{
    assert(ls.push(l).drop_last() =~= ls);
    assert(ls.push(l).last() == l);
}

proof fn lemma_kept_all(ls: Seq<Seq<char>>, k: Seq<char>)
    requires
        forall|i: int| 0 <= i < ls.len() ==> line_kept(#[trigger] ls[i], k),
    ensures
        kept_lines(ls, k) == ls,
    decreases ls.len(),
{
    if ls.len() == 0 {
        assert(kept_lines(ls, k) =~= ls);
    } else {
        let d = ls.drop_last();
        assert forall|i: int| 0 <= i < d.len() implies line_kept(#[trigger] d[i], k) by {
            assert(d[i] == ls[i]);
        }
        lemma_kept_all(d, k);
        assert(ls[ls.len() - 1] == ls.last());
        assert(line_kept(ls.last(), k));
        assert(d.push(ls.last()) =~= ls);
    }
}

proof fn lemma_kept_are_kept(ls: Seq<Seq<char>>, k: Seq<char>)
    ensures
        forall|i: int|
            0 <= i < kept_lines(ls, k).len() ==> line_kept(#[trigger] kept_lines(ls, k)[i], k),
    decreases ls.len(),
{
    if ls.len() > 0 {
        lemma_kept_are_kept(ls.drop_last(), k);
        let d = kept_lines(ls.drop_last(), k);
        let r = kept_lines(ls, k);
        assert forall|i: int| 0 <= i < r.len() implies line_kept(#[trigger] r[i], k) by {
            if line_kept(ls.last(), k) {
                if i < d.len() {
                    assert(r[i] == d[i]);
                } else {
                    assert(r[i] == ls.last());
                }
            } else {
                assert(r[i] == d[i]);
            }
        }
    }
}

proof fn lemma_kept_no_newline(ls: Seq<Seq<char>>, k: Seq<char>)
    requires
        forall|i: int, j: int|
            0 <= i < ls.len() && 0 <= j < ls[i].len() ==> #[trigger] ls[i][j] != '\n',
    ensures
        forall|i: int, j: int|
            0 <= i < kept_lines(ls, k).len() && 0 <= j < kept_lines(ls, k)[i].len()
                ==> #[trigger] kept_lines(ls, k)[i][j] != '\n',
    decreases ls.len(),
{
    if ls.len() > 0 {
        let d0 = ls.drop_last();
        assert forall|i: int, j: int|
            0 <= i < d0.len() && 0 <= j < d0[i].len() implies #[trigger] d0[i][j] != '\n' by {
            assert(d0[i] == ls[i]);
        }
        lemma_kept_no_newline(d0, k);
        let d = kept_lines(d0, k);
        let r = kept_lines(ls, k);
        assert forall|i: int, j: int|
            0 <= i < r.len() && 0 <= j < r[i].len() implies #[trigger] r[i][j] != '\n' by {
            if line_kept(ls.last(), k) && i == d.len() {
                assert(r[i] == ls.last());
                assert(ls[ls.len() - 1] == ls.last());
            } else {
                assert(r[i] == d[i]);
            }
        }
    }
}

/// The export line has no newline and is itself dropped by a later rewrite
/// for the same key.
proof fn lemma_export_line_shape(k: Seq<char>, v: Seq<char>)
    requires
        forall|j: int| 0 <= j < k.len() ==> k[j] != '\n',
        forall|j: int| 0 <= j < v.len() ==> v[j] != '\n',
    ensures
        forall|j: int|
            0 <= j < spec_export_line(k, v).len() ==> #[trigger] spec_export_line(k, v)[j] != '\n',
        !line_kept(spec_export_line(k, v), k),
{
    let h = "export "@;
    reveal_strlit("export ");
    assert(h =~= seq!['e', 'x', 'p', 'o', 'r', 't', ' ']);
    let e = spec_export_line(k, v);
    let p = spec_export_prefix(k);
    assert(e.len() == h.len() + k.len() + 1 + 1 + v.len() + 1);
    assert forall|j: int| 0 <= j < e.len() implies #[trigger] e[j] != '\n' by {
        if j < h.len() {
            assert(e[j] == h[j]);
        } else if j < h.len() + k.len() {
            assert(e[j] == k[j - h.len()]);
        } else if j == h.len() + k.len() {
            assert(e[j] == '=');
        } else if j == h.len() + k.len() + 1 {
            assert(e[j] == '"');
        } else if j < h.len() + k.len() + 2 + v.len() {
            assert(e[j] == v[j - h.len() - k.len() - 2]);
        } else {
            assert(e[j] == '"');
        }
    }
    assert(e[0] == 'e');
    assert(!is_space_char(e[0]));
    lemma_trim_start_prefix(e, 0);
    assert(spec_trim_start(e) == e.subrange(0, e.len() as int));
    assert(e.subrange(0, e.len() as int) =~= e);
    assert(e.subrange(0, p.len() as int) =~= p);
    assert(is_prefix(p, e));
}

/// Law: mirroring again, with the same or a new value, replaces the single
/// export line rather than duplicating it.
pub proof fn lemma_mirror_replaces(c: Seq<char>, k: Seq<char>, v1: Seq<char>, v2: Seq<char>)
    requires
        forall|j: int| 0 <= j < k.len() ==> k[j] != '\n',
        forall|j: int| 0 <= j < v1.len() ==> v1[j] != '\n',
    ensures
        spec_mirror(spec_mirror(c, k, v1), k, v2) == spec_mirror(c, k, v2),
{
    let ls = spec_lines(c);
    let kept = kept_lines(ls, k);
    let e1 = spec_export_line(k, v1);
    let m1 = spec_unlines(kept.push(e1));
    lemma_lines_no_newline(c);
    lemma_kept_no_newline(ls, k);
    lemma_export_line_shape(k, v1);
    assert forall|i: int, j: int|
        0 <= i < kept.push(e1).len() && 0 <= j < kept.push(e1)[i].len() implies #[trigger] kept.push(
        e1,
    )[i][j] != '\n' by {
        if i < kept.len() {
            assert(kept.push(e1)[i] == kept[i]);
        } else {
            assert(kept.push(e1)[i] == e1);
        }
    }
    lemma_lines_unlines(kept.push(e1));
    assert(spec_lines(m1) == kept.push(e1));
    lemma_kept_prefix_push(kept, k, e1);
    assert(kept_lines(kept.push(e1), k) == kept_lines(kept, k));
    lemma_kept_are_kept(ls, k);
    lemma_kept_all(kept, k);
    assert(kept_lines(spec_lines(m1), k) == kept);
}

/// Law: mirroring twice in a row with the same key and value leaves the
/// text unchanged the second time.
pub proof fn lemma_mirror_idempotent(c: Seq<char>, k: Seq<char>, v: Seq<char>)
    requires
        forall|j: int| 0 <= j < k.len() ==> k[j] != '\n',
        forall|j: int| 0 <= j < v.len() ==> v[j] != '\n',
    ensures
        spec_mirror(spec_mirror(c, k, v), k, v) == spec_mirror(c, k, v),
{
    lemma_mirror_replaces(c, k, v, v);
}

/// Law: the mirrored text ends with the key's export line and no earlier
/// line exports the key, so the export line occurs exactly once.
pub proof fn lemma_mirror_single_export(c: Seq<char>, k: Seq<char>, v: Seq<char>)
    requires
        forall|j: int| 0 <= j < k.len() ==> k[j] != '\n',
        forall|j: int| 0 <= j < v.len() ==> v[j] != '\n',
    ensures
        spec_lines(spec_mirror(c, k, v)).len() > 0,
        spec_lines(spec_mirror(c, k, v)).last() == spec_export_line(k, v),
        !line_kept(spec_export_line(k, v), k),
        forall|i: int|
            0 <= i < spec_lines(spec_mirror(c, k, v)).len() - 1 ==> line_kept(
                #[trigger] spec_lines(spec_mirror(c, k, v))[i],
                k,
            ),
{
    let ls = spec_lines(c);
    let kept = kept_lines(ls, k);
    let e = spec_export_line(k, v);
    lemma_lines_no_newline(c);
    lemma_kept_no_newline(ls, k);
    lemma_export_line_shape(k, v);
    assert forall|i: int, j: int|
        0 <= i < kept.push(e).len() && 0 <= j < kept.push(e)[i].len() implies #[trigger] kept.push(
        e,
    )[i][j] != '\n' by {
        if i < kept.len() {
            assert(kept.push(e)[i] == kept[i]);
        } else {
            assert(kept.push(e)[i] == e);
        }
    }
    lemma_lines_unlines(kept.push(e));
    lemma_kept_are_kept(ls, k);
    assert forall|i: int|
        0 <= i < spec_lines(spec_mirror(c, k, v)).len() - 1 implies line_kept(
        #[trigger] spec_lines(spec_mirror(c, k, v))[i],
        k,
    ) by {
        assert(spec_lines(spec_mirror(c, k, v))[i] == kept[i]);
    }
}

/// Rewrites one shell profile's text for `key` and `value`.
pub fn mirror_profile_content(content: &str, key: &str, value: &str) -> (r: String)
    ensures
        r@ == spec_mirror(content@, key@, value@),
{
    let cs = str_to_chars(content);
    let lines = split_lines(&cs);
    let ghost lviews = lines@.map_values(|l: Vec<char>| l@);
    let mut prefix: Vec<char> = str_to_chars("export ");
    let kc = str_to_chars(key);
    push_chars(&mut prefix, &kc);
    prefix.push('=');
    proof {
        assert(prefix@ =~= spec_export_prefix(key@));
    }
    let mut out: Vec<char> = Vec::new();
    let n = lines.len();
    let mut i: usize = 0;
    proof {
        assert(lviews.subrange(0, 0) =~= Seq::<Seq<char>>::empty());
        assert(kept_lines(lviews.subrange(0, 0), key@) =~= Seq::<Seq<char>>::empty());
    }
    while i < n
        invariant
            0 <= i <= n,
            n == lines@.len(),
            lviews == lines@.map_values(|l: Vec<char>| l@),
            prefix@ == spec_export_prefix(key@),
            out@ == spec_unlines(kept_lines(lviews.subrange(0, i as int), key@)),
        decreases n - i,
    {
        let ghost pre = kept_lines(lviews.subrange(0, i as int), key@);
        let line = &lines[i];
        let m = line.len();
        let mut j: usize = 0;
        while j < m && is_space(line[j])
            invariant
                0 <= j <= m,
                m == line@.len(),
                forall|p: int| 0 <= p < j ==> is_space_char(line@[p]),
            decreases m - j,
        {
            j += 1;
        }
        proof {
            lemma_trim_start_prefix(line@, j as int);
        }
        let rest = sub_chars(line, j, m);
        let keep = !starts_with(&rest, &prefix);
        proof {
            assert(keep == line_kept(lviews[i as int], key@));
        }
        if keep {
            push_chars(&mut out, line);
            out.push('\n');
            proof {
                lemma_unlines_push(pre, line@);
            }
        }
        i += 1;
        proof {
            let cur = lviews.subrange(0, i as int);
            assert(cur.drop_last() =~= lviews.subrange(0, i - 1));
            assert(cur.last() == lviews[i - 1]);
        }
    }
    proof {
        assert(lviews.subrange(0, n as int) =~= lviews);
    }
    push_chars(&mut out, &prefix);
    out.push('"');
    let vc = str_to_chars(value);
    push_chars(&mut out, &vc);
    out.push('"');
    out.push('\n');
    proof {
        let kept = kept_lines(lviews, key@);
        let e = spec_export_line(key@, value@);
        lemma_unlines_push(kept, e);
        assert(out@ =~= spec_unlines(kept) + e + seq!['\n']);
    }
    chars_to_string(&out)
}

} // verus!
