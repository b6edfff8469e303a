//! Lexical path absolutization, following the POSIX pathname-resolution
//! rules without touching the filesystem.
//!
//! A path is a sequence of bytes, as POSIX paths are.  Resolution is
//! purely textual: `.` and `..` are handled only as literal components
//! (a non-leading `.` component disappears, `..` is kept untouched), and
//! no symbolic link is followed.  A path that begins with exactly two
//! separators keeps that doubled root verbatim; three or more leading
//! separators collapse to a single one.

use vstd::prelude::*;
use crate::Error;

verus! {

/// The POSIX path separator byte, `/`.
pub const SEP: u8 = 47;

/// The byte of the `.` path component.
pub const DOT: u8 = 46;

pub open spec fn is_absolute_path(p: Seq<u8>) -> bool {
    p.len() > 0 && p[0] == SEP
}

/// Exactly two leading separators (`//p`), which POSIX lets an
/// implementation treat specially; three or more collapse to one.
pub open spec fn has_doubled_root(p: Seq<u8>) -> bool {
    p.len() >= 2 && p[0] == SEP && p[1] == SEP && !(p.len() >= 3 && p[2] == SEP)
}

pub open spec fn dot_component() -> Seq<u8> {
    seq![DOT]
}

/// A `.` as the very first component of a relative path; it is kept as a
/// literal component there, while `.` anywhere else disappears.
pub open spec fn has_leading_dot(p: Seq<u8>) -> bool {
    p.len() >= 1 && p[0] == DOT && (p.len() == 1 || p[1] == SEP)
}

/// The nonempty, non-`.` segments of `p` from index `i` on, `cur` being
/// the partial segment read so far.
pub open spec fn segs_from(p: Seq<u8>, i: int, cur: Seq<u8>) -> Seq<Seq<u8>>
    decreases p.len() - i,
{
    if i < 0 || i >= p.len() {
        if cur.len() > 0 && cur != dot_component() {
            seq![cur]
        } else {
            Seq::empty()
        }
    } else if p[i] == SEP {
        if cur.len() > 0 && cur != dot_component() {
            seq![cur] + segs_from(p, i + 1, Seq::empty())
        } else {
            segs_from(p, i + 1, Seq::empty())
        }
    } else {
        segs_from(p, i + 1, cur.push(p[i]))
    }
}

/// The lexical components of `p`: its nonempty segments, without `.`
/// components, except that a leading `.` of a relative path is kept.
pub open spec fn lex_components(p: Seq<u8>) -> Seq<Seq<u8>> {
    if !is_absolute_path(p) && has_leading_dot(p) {
        seq![dot_component()] + segs_from(p, 0, Seq::empty())
    } else {
        segs_from(p, 0, Seq::empty())
    }
}

/// Appending one component to an accumulated path: a separator is added
/// only when the accumulator is nonempty and does not already end with
/// one.
pub open spec fn push_component(base: Seq<u8>, comp: Seq<u8>) -> Seq<u8> {
    if base.len() == 0 {
        comp
    } else if base.last() == SEP {
        base + comp
    } else {
        base + seq![SEP] + comp
    }
}

pub open spec fn join_components(base: Seq<u8>, comps: Seq<Seq<u8>>) -> Seq<u8>
    decreases comps.len(),
{
    if comps.len() == 0 {
        base
    } else {
        join_components(push_component(base, comps[0]), comps.drop_first())
    }
}

pub open spec fn ends_with_sep(p: Seq<u8>) -> bool {
    p.len() > 0 && p.last() == SEP
}

/// What `absolute` returns for a nonempty path `p` under the working
/// directory `cwd`: the components of `p` joined onto the right base,
/// with a trailing separator of `p` preserved.
pub open spec fn abs_path_spec(p: Seq<u8>, cwd: Seq<u8>) -> Seq<u8> {
    let base = if is_absolute_path(p) {
        if has_doubled_root(p) {
            seq![SEP, SEP]
        } else {
            seq![SEP]
        }
    } else {
        cwd
    };
    let joined = join_components(base, lex_components(p));
    if ends_with_sep(p) {
        push_component(joined, Seq::empty())
    } else {
        joined
    }
}

fn append_bytes(out: &mut Vec<u8>, bytes: &Vec<u8>)
    ensures
        final(out)@ == old(out)@ + bytes@,
{
    let mut j: usize = 0;
    while j < bytes.len()
        invariant
            j <= bytes@.len(),
            out@ == old(out)@ + bytes@.subrange(0, j as int),
        decreases bytes@.len() - j,
    {
        out.push(bytes[j]);
        proof {
            assert(bytes@.subrange(0, j + 1) =~= bytes@.subrange(0, j as int).push(bytes@[j as int]));
            assert(old(out)@ + bytes@.subrange(0, j + 1)
                =~= (old(out)@ + bytes@.subrange(0, j as int)).push(bytes@[j as int]));
        }
        j += 1;
    }
    proof {
        assert(bytes@.subrange(0, bytes@.len() as int) =~= bytes@);
    }
}

fn push_component_exec(out: &mut Vec<u8>, comp: &Vec<u8>)
    ensures
        final(out)@ == push_component(old(out)@, comp@),
{
    if out.len() > 0 && out[out.len() - 1] != SEP {
        out.push(SEP);
        proof {
            assert(out@ =~= old(out)@ + seq![SEP]);
        }
        append_bytes(out, comp);
        proof {
            assert((old(out)@ + seq![SEP]) + comp@ =~= old(out)@ + seq![SEP] + comp@);
        }
    } else {
        append_bytes(out, comp);
        proof {
            if old(out)@.len() == 0 {
                assert(old(out)@ + comp@ =~= comp@);
            }
        }
    }
}

/// Makes a possibly-relative path absolute by purely lexical resolution,
/// starting from the given current working directory.  An empty path is
/// rejected with `Error::InvalidInput`; every nonempty path succeeds.
pub fn absolute(path: &Vec<u8>, cwd: &Vec<u8>) -> (r: Result<Vec<u8>, Error>)
    ensures
        path@.len() == 0 ==> r == Err::<Vec<u8>, Error>(Error::InvalidInput),
        path@.len() > 0 ==> (r matches Ok(out) && out@ == abs_path_spec(path@, cwd@)),
{
    if path.len() == 0 {
        return Err(Error::InvalidInput);
    }
    let is_abs = path[0] == SEP;

    // First pass: collect the lexical components of `path`.
    let mut comps: Vec<Vec<u8>> = Vec::new();
    let ghost mut built: Seq<Seq<u8>> = Seq::empty();

    if !is_abs && path[0] == DOT && (path.len() == 1 || path[1] == SEP) {
        let mut d: Vec<u8> = Vec::new();
        d.push(DOT);
        proof {
            assert(d@ =~= dot_component());
        }
        comps.push(d);
        proof {
            built = built.push(dot_component());
        }
    }
    proof {
        assert(lex_components(path@) =~= built + segs_from(path@, 0, Seq::empty()));
    }

    let mut cur: Vec<u8> = Vec::new();
    let mut i: usize = 0;
    while i < path.len()
        invariant
            i <= path@.len(),
            comps@.len() == built.len(),
            forall|k: int| 0 <= k < built.len() ==> comps@[k]@ == built[k],
            lex_components(path@) == built + segs_from(path@, i as int, cur@),
        decreases path@.len() - i,
    {
        let ghost cur_view = cur@;
        if path[i] == SEP {
            if cur.len() > 0 && !(cur.len() == 1 && cur[0] == DOT) {
                proof {
                    assert(cur_view != dot_component()) by {
                        if cur_view == dot_component() {
                            assert(cur_view.len() == 1);
                            assert(cur_view[0] == DOT);
                        }
                    }
                    assert(segs_from(path@, i as int, cur_view)
                        == seq![cur_view] + segs_from(path@, i + 1, Seq::empty()));
                }
                comps.push(cur);
                cur = Vec::new();
                proof {
                    built = built.push(cur_view);
                    assert(built + segs_from(path@, i + 1, Seq::empty())
                        =~= built.drop_last() + (seq![cur_view] + segs_from(path@, i + 1, Seq::empty())));
                }
            } else {
                proof {
                    if cur_view.len() > 0 {
                        assert(cur_view.len() == 1 && cur_view[0] == DOT);
                        assert(cur_view =~= dot_component());
                    }
                    assert(segs_from(path@, i as int, cur_view)
                        == segs_from(path@, i + 1, Seq::empty()));
                }
                cur = Vec::new();
            }
        } else {
            let b = path[i];
            cur.push(b);
            proof {
                assert(segs_from(path@, i as int, cur_view)
                    == segs_from(path@, i + 1, cur_view.push(path@[i as int])));
            }
        }
        i += 1;
    }
    let ghost cur_view = cur@;
    if cur.len() > 0 && !(cur.len() == 1 && cur[0] == DOT) {
        proof {
            assert(cur_view != dot_component()) by {
                if cur_view == dot_component() {
                    assert(cur_view.len() == 1);
                    assert(cur_view[0] == DOT);
                }
            }
            assert(segs_from(path@, path@.len() as int, cur_view) == seq![cur_view]);
        }
        comps.push(cur);
        proof {
            built = built.push(cur_view);
            assert(lex_components(path@) =~= built);
        }
    } else {
        proof {
            if cur_view.len() > 0 {
                assert(cur_view.len() == 1 && cur_view[0] == DOT);
                assert(cur_view =~= dot_component());
            }
            assert(segs_from(path@, path@.len() as int, cur_view) =~= Seq::<Seq<u8>>::empty());
            assert(lex_components(path@) =~= built);
        }
    }

    // Second pass: join the components onto the base the POSIX rules pick.
    let ghost base: Seq<u8> = if is_absolute_path(path@) {
        if has_doubled_root(path@) {
            seq![SEP, SEP]
        } else {
            seq![SEP]
        }
    } else {
        cwd@
    };
    let mut out: Vec<u8> = Vec::new();
    if is_abs {
        out.push(SEP);
        if path.len() >= 2 && path[1] == SEP && !(path.len() >= 3 && path[2] == SEP) {
            out.push(SEP);
            proof {
                assert(out@ =~= seq![SEP, SEP]);
            }
        } else {
            proof {
                assert(out@ =~= seq![SEP]);
            }
        }
    } else {
        append_bytes(&mut out, cwd);
        proof {
            assert(out@ =~= cwd@);
        }
    }
    proof {
        assert(out@ == base);
    }

    let ghost comps_seq = built;
    proof {
        assert(comps_seq.subrange(0, comps_seq.len() as int) =~= comps_seq);
    }
    let mut k: usize = 0;
    while k < comps.len()
        invariant
            k <= comps@.len(),
            comps@.len() == comps_seq.len(),
            forall|t: int| 0 <= t < comps_seq.len() ==> comps@[t]@ == comps_seq[t],
            join_components(base, comps_seq)
                == join_components(out@, comps_seq.subrange(k as int, comps_seq.len() as int)),
        decreases comps@.len() - k,
    {
        let ghost rest = comps_seq.subrange(k as int, comps_seq.len() as int);
        let c = &comps[k];
        push_component_exec(&mut out, c);
        proof {
            assert(rest[0] == comps_seq[k as int]);
            assert(rest.drop_first() =~= comps_seq.subrange(k + 1, comps_seq.len() as int));
            assert(join_components(out@, rest.drop_first())
                == join_components(out@, comps_seq.subrange(k + 1, comps_seq.len() as int)));
        }
        k += 1;
    }
    proof {
        assert(comps_seq.subrange(comps_seq.len() as int, comps_seq.len() as int)
            =~= Seq::<Seq<u8>>::empty());
        assert(join_components(base, comps_seq) == out@);
    }

    // A trailing separator of the input is preserved in the output.
    if path[path.len() - 1] == SEP {
        let empty_comp: Vec<u8> = Vec::new();
        push_component_exec(&mut out, &empty_comp);
        proof {
            assert(empty_comp@ =~= Seq::<u8>::empty());
        }
    }
    proof {
        assert(out@ == abs_path_spec(path@, cwd@));
    }
    Ok(out)
}

/// A well-formed path component: nonempty and free of separators.
pub open spec fn seg_wf(s: Seq<u8>) -> bool {
    s.len() > 0 && (forall|u: int| 0 <= u < s.len() ==> s[u] != SEP)
}

proof fn lemma_segs_wf(p: Seq<u8>, i: int, cur: Seq<u8>)
    requires
        forall|u: int| 0 <= u < cur.len() ==> cur[u] != SEP,
    ensures
        forall|t: int|
            0 <= t < segs_from(p, i, cur).len() ==> seg_wf(#[trigger] segs_from(p, i, cur)[t]),
    decreases p.len() - i,
{
    let segs = segs_from(p, i, cur);
    if i < 0 || i >= p.len() {
        if cur.len() > 0 && cur != dot_component() {
            assert(segs == seq![cur]);
            assert forall|t: int| 0 <= t < segs.len() implies seg_wf(#[trigger] segs[t]) by {
                assert(segs[t] == cur);
            }
        }
    } else if p[i] == SEP {
        lemma_segs_wf(p, i + 1, Seq::empty());
        let rest = segs_from(p, i + 1, Seq::empty());
        if cur.len() > 0 && cur != dot_component() {
            assert(segs == seq![cur] + rest);
            assert forall|t: int| 0 <= t < segs.len() implies seg_wf(#[trigger] segs[t]) by {
                if t == 0 {
                    assert(segs[t] == cur);
                } else {
                    assert(segs[t] == rest[t - 1]);
                }
            }
        } else {
            assert(segs == rest);
            assert forall|t: int| 0 <= t < segs.len() implies seg_wf(#[trigger] segs[t]) by {
                assert(segs[t] == rest[t]);
            }
        }
    } else {
        let cur2 = cur.push(p[i]);
        assert forall|u: int| 0 <= u < cur2.len() implies cur2[u] != SEP by {
            if u < cur.len() {
                assert(cur2[u] == cur[u]);
            } else {
                assert(cur2[u] == p[i]);
            }
        }
        lemma_segs_wf(p, i + 1, cur2);
        let rest = segs_from(p, i + 1, cur2);
        assert(segs == rest);
        assert forall|t: int| 0 <= t < segs.len() implies seg_wf(#[trigger] segs[t]) by {
            assert(segs[t] == rest[t]);
        }
    }
}

proof fn lemma_lex_components_wf(p: Seq<u8>)
    ensures
        forall|t: int|
            0 <= t < lex_components(p).len() ==> seg_wf(#[trigger] lex_components(p)[t]),
{
    lemma_segs_wf(p, 0, Seq::empty());
    if !is_absolute_path(p) && has_leading_dot(p) {
        let segs = segs_from(p, 0, Seq::empty());
        let comps = lex_components(p);
        assert(seg_wf(dot_component())) by {
            assert(dot_component().len() == 1);
            assert(dot_component()[0] == DOT);
        }
        assert forall|t: int| 0 <= t < comps.len() implies seg_wf(#[trigger] comps[t]) by {
            if t == 0 {
                assert(comps[t] == dot_component());
            } else {
                assert(comps[t] == segs[t - 1]);
            }
        }
    }
}

proof fn lemma_segs_nonempty(p: Seq<u8>, i: int, cur: Seq<u8>)
    requires
        cur.len() > 0,
        cur != dot_component(),
    ensures
        segs_from(p, i, cur).len() > 0,
    decreases p.len() - i,
{
    if i < 0 || i >= p.len() {
    } else if p[i] == SEP {
    } else {
        let cur2 = cur.push(p[i]);
        assert(cur2 != dot_component()) by {
            if cur2 == dot_component() {
                assert(cur2.len() == 1);
            }
        }
        lemma_segs_nonempty(p, i + 1, cur2);
    }
}

/// Every nonempty relative path has at least one lexical component.
pub proof fn lemma_relative_has_component(p: Seq<u8>)
    requires
        p.len() > 0,
        !is_absolute_path(p),
    ensures
        lex_components(p).len() > 0,
{
    if has_leading_dot(p) {
    } else {
        assert(p[0] != SEP);
        let c1 = Seq::<u8>::empty().push(p[0]);
        assert(segs_from(p, 0, Seq::empty()) == segs_from(p, 1, c1));
        if p[0] != DOT {
            assert(c1 != dot_component()) by {
                if c1 == dot_component() {
                    assert(c1[0] == DOT);
                }
            }
            lemma_segs_nonempty(p, 1, c1);
        } else {
            // `p` starts with `.` but is not a lone leading `.`, so a
            // second character follows and it is not a separator.
            assert(p.len() >= 2 && p[1] != SEP);
            let c2 = c1.push(p[1]);
            assert(segs_from(p, 1, c1) == segs_from(p, 2, c2));
            assert(c2 != dot_component()) by {
                if c2 == dot_component() {
                    assert(c2.len() == 1);
                }
            }
            lemma_segs_nonempty(p, 2, c2);
        }
    }
}

proof fn lemma_join_prefix(b: Seq<u8>, comps: Seq<Seq<u8>>)
    requires
        b.len() > 0,
    ensures
        join_components(b, comps).len() >= b.len(),
        join_components(b, comps).subrange(0, b.len() as int) == b,
    decreases comps.len(),
{
    if comps.len() == 0 {
        assert(b.subrange(0, b.len() as int) =~= b);
    } else {
        let b2 = push_component(b, comps[0]);
        assert(b2.len() >= b.len());
        assert(b2.subrange(0, b.len() as int) =~= b);
        lemma_join_prefix(b2, comps.drop_first());
        let r = join_components(b2, comps.drop_first());
        assert(r.subrange(0, b.len() as int) =~= b) by {
            assert forall|t: int| 0 <= t < b.len() implies r.subrange(0, b.len() as int)[t]
                == b[t] by {
                assert(r.subrange(0, b2.len() as int)[t] == r[t]);
                assert(b2.subrange(0, b.len() as int)[t] == b2[t]);
            }
        }
    }
}

proof fn lemma_join_last(b: Seq<u8>, comps: Seq<Seq<u8>>)
    requires
        comps.len() > 0,
        forall|t: int| 0 <= t < comps.len() ==> seg_wf(#[trigger] comps[t]),
    ensures
        join_components(b, comps).len() > 0,
        join_components(b, comps).last() == comps.last().last(),
    decreases comps.len(),
{
    let c0 = comps[0];
    assert(seg_wf(c0));
    let b2 = push_component(b, c0);
    assert(b2.len() > 0 && b2.last() == c0.last()) by {
        if b.len() == 0 {
        } else if b.last() == SEP {
            assert((b + c0).last() == c0.last());
        } else {
            assert((b + seq![SEP] + c0).last() == c0.last());
        }
    }
    assert(join_components(b, comps) == join_components(b2, comps.drop_first()));
    if comps.len() == 1 {
        assert(comps.drop_first().len() == 0);
        assert(join_components(b2, comps.drop_first()) == b2);
        assert(comps.last() == c0);
    } else {
        let rest = comps.drop_first();
        assert forall|t: int| 0 <= t < rest.len() implies seg_wf(#[trigger] rest[t]) by {
            assert(rest[t] == comps[t + 1]);
        }
        lemma_join_last(b2, rest);
        assert(rest.last() == comps.last());
    }
}

/// For a nonempty relative path the result is the current working
/// directory joined with the path's lexical components (`.` and `..`
/// handled only as literal components): in particular it begins with
/// the working directory.
pub proof fn lemma_relative_resolves_under_cwd(p: Seq<u8>, cwd: Seq<u8>)
    requires
        p.len() > 0,
        !is_absolute_path(p),
        cwd.len() > 0,
    ensures
        abs_path_spec(p, cwd) == (if ends_with_sep(p) {
            push_component(join_components(cwd, lex_components(p)), Seq::empty())
        } else {
            join_components(cwd, lex_components(p))
        }),
        abs_path_spec(p, cwd).len() >= cwd.len(),
        abs_path_spec(p, cwd).subrange(0, cwd.len() as int) == cwd,
{
    lemma_join_prefix(cwd, lex_components(p));
    let joined = join_components(cwd, lex_components(p));
    let r = abs_path_spec(p, cwd);
    if ends_with_sep(p) {
        assert(r == push_component(joined, Seq::empty()));
        if joined.last() == SEP {
            assert(r =~= joined);
        } else {
            assert(r =~= joined + seq![SEP]);
            assert(r.subrange(0, cwd.len() as int) =~= joined.subrange(0, cwd.len() as int));
        }
    }
}

/// A trailing separator of the input is preserved in the output, and no
/// separator appears when the input lacks one — unless an absolute input
/// consists of separators and `.` components alone (such as `/.`), whose
/// result is the bare root and ends with a separator regardless.
pub proof fn lemma_trailing_separator(p: Seq<u8>, cwd: Seq<u8>)
    requires
        p.len() > 0,
    ensures
        ends_with_sep(p) ==> ends_with_sep(abs_path_spec(p, cwd)),
        !ends_with_sep(p) && lex_components(p).len() > 0 ==> !ends_with_sep(
            abs_path_spec(p, cwd),
        ),
{
    let comps = lex_components(p);
    let base: Seq<u8> = if is_absolute_path(p) {
        if has_doubled_root(p) {
            seq![SEP, SEP]
        } else {
            seq![SEP]
        }
    } else {
        cwd
    };
    let joined = join_components(base, comps);
    lemma_lex_components_wf(p);
    if comps.len() > 0 {
        lemma_join_last(base, comps);
        assert(comps.last().last() != SEP) by {
            assert(seg_wf(comps[comps.len() - 1]));
        }
    } else {
        assert(is_absolute_path(p)) by {
            if !is_absolute_path(p) {
                lemma_relative_has_component(p);
            }
        }
        assert(joined == base);
        assert(joined.len() > 0 && joined.last() == SEP);
    }
    if ends_with_sep(p) {
        assert(abs_path_spec(p, cwd) == push_component(joined, Seq::empty()));
        if joined.last() == SEP {
            assert(push_component(joined, Seq::empty()) =~= joined);
        } else {
            assert(push_component(joined, Seq::empty()) =~= joined + seq![SEP]);
        }
    }
}

/// No two adjacent separators anywhere in `p`.
pub open spec fn no_repeated_sep(p: Seq<u8>) -> bool {
    forall|i: int| 0 <= i < p.len() - 1 ==> !(#[trigger] p[i] == SEP && p[i + 1] == SEP)
}

/// No `.` standing alone between separators or path ends.
pub open spec fn no_dot_component(p: Seq<u8>) -> bool {
    forall|i: int|
        0 <= i < p.len() ==> !(#[trigger] p[i] == DOT && (i == 0 || p[i - 1] == SEP) && (i + 1
            == p.len() || p[i + 1] == SEP))
}

/// An absolute path already in normal lexical form: single separators
/// only, and no `.` components.  Such a path is exactly what
/// absolutization itself produces, so it is a fixed point.
pub open spec fn normalized_absolute(p: Seq<u8>) -> bool {
    is_absolute_path(p) && no_repeated_sep(p) && no_dot_component(p)
}

proof fn lemma_segs_drop_trailing(p: Seq<u8>, i: int, cur: Seq<u8>)
    requires
        p.len() >= 1,
        p.last() == SEP,
        0 <= i <= p.len() - 1,
    ensures
        segs_from(p, i, cur) == segs_from(p.drop_last(), i, cur),
    decreases p.len() - i,
{
    let q = p.drop_last();
    if i == p.len() - 1 {
        assert(p[i] == SEP);
        assert(segs_from(p, p.len() as int, Seq::empty()) =~= Seq::<Seq<u8>>::empty());
        if cur.len() > 0 && cur != dot_component() {
            assert(segs_from(p, i, cur) =~= seq![cur] + Seq::<Seq<u8>>::empty());
            assert(seq![cur] + Seq::<Seq<u8>>::empty() =~= seq![cur]);
            assert(segs_from(q, i, cur) == seq![cur]);
        } else {
            assert(segs_from(p, i, cur) == Seq::<Seq<u8>>::empty());
            assert(segs_from(q, i, cur) == Seq::<Seq<u8>>::empty());
        }
    } else {
        assert(p[i] == q[i]);
        if p[i] == SEP {
            lemma_segs_drop_trailing(p, i + 1, Seq::empty());
        } else {
            lemma_segs_drop_trailing(p, i + 1, cur.push(p[i]));
        }
    }
}

#[verifier::rlimit(100)]
proof fn lemma_join_reconstructs(q: Seq<u8>, i: int, j: int, b: Seq<u8>, cur: Seq<u8>)
    requires
        q.len() >= 2,
        q[0] == SEP,
        q.last() != SEP,
        no_repeated_sep(q),
        no_dot_component(q),
        1 <= j <= i <= q.len(),
        cur == q.subrange(j, i),
        forall|k: int| j <= k < i ==> q[k] != SEP,
        j == 1 ==> b == q.subrange(0, 1),
        j >= 2 ==> b == q.subrange(0, j - 1) && q[j - 1] == SEP && b.last() != SEP,
    ensures
        join_components(b, segs_from(q, i, cur)) == q,
    decreases q.len() - i,
{
    let segs = segs_from(q, i, cur);
    if i >= q.len() {
        assert(j < i) by {
            if j == i {
                if j >= 2 {
                    assert(q[j - 1] == SEP);
                    assert(q.last() == SEP);
                }
            }
        }
        assert(cur.len() > 0);
        assert(cur != dot_component()) by {
            if cur == dot_component() {
                assert(cur.len() == 1);
                assert(q[j] == cur[0]);
                assert(q[j] == DOT);
                assert(i == j + 1);
                assert(j == 0 || q[j - 1] == SEP);
                assert(j + 1 == q.len());
                assert(!(q[j] == DOT && (j == 0 || q[j - 1] == SEP) && (j + 1 == q.len() || q[j + 1]
                    == SEP)));
            }
        }
        assert(segs == seq![cur]);
        assert(segs[0] == cur);
        assert(segs.drop_first() =~= Seq::<Seq<u8>>::empty());
        let b2 = push_component(b, cur);
        assert(join_components(b, segs) == join_components(b2, segs.drop_first()));
        assert(join_components(b2, segs.drop_first()) == b2) by {
            assert(segs.drop_first().len() == 0);
        }
        assert(join_components(b, segs) == push_component(b, cur));
        if j == 1 {
            assert(b.last() == SEP);
            assert(b + cur =~= q);
        } else {
            assert(b.last() != SEP);
            assert(b + seq![SEP] + cur =~= q);
        }
    } else if q[i] == SEP {
        assert(j < i) by {
            if j == i {
                if j == 1 {
                    assert(!(q[0] == SEP && q[1] == SEP));
                } else {
                    assert(q[j - 1] == SEP && q[j] == SEP);
                    assert(!(q[j - 1] == SEP && q[j] == SEP));
                }
            }
        }
        assert(cur.len() > 0);
        assert(cur != dot_component()) by {
            if cur == dot_component() {
                assert(cur.len() == 1);
                assert(q[j] == cur[0]);
                assert(q[j] == DOT);
                assert(i == j + 1);
                assert(j == 0 || q[j - 1] == SEP);
                assert(q[j + 1] == SEP);
                assert(!(q[j] == DOT && (j == 0 || q[j - 1] == SEP) && (j + 1 == q.len() || q[j + 1]
                    == SEP)));
            }
        }
        let b2 = push_component(b, cur);
        assert(b2 =~= q.subrange(0, i)) by {
            if j == 1 {
                assert(b.last() == SEP);
                assert(b + cur =~= q.subrange(0, i));
            } else {
                assert(b.last() != SEP);
                assert(b + seq![SEP] + cur =~= q.subrange(0, i));
            }
        }
        assert(i >= 2) by {
            if i == 1 {
                assert(!(q[0] == SEP && q[1] == SEP));
            }
        }
        assert(q[i - 1] != SEP) by {
            assert(!(q[i - 1] == SEP && q[i] == SEP));
        }
        assert(b2.last() == q[i - 1]);
        let cur2 = q.subrange(i + 1, i + 1);
        assert(cur2 =~= Seq::<u8>::empty());
        lemma_join_reconstructs(q, i + 1, i + 1, b2, cur2);
        assert(segs == seq![cur] + segs_from(q, i + 1, Seq::empty()));
        assert(segs[0] == cur);
        assert(segs.drop_first() =~= segs_from(q, i + 1, Seq::empty()));
        assert(segs_from(q, i + 1, cur2) == segs_from(q, i + 1, Seq::empty()));
        assert(join_components(b, segs) == join_components(b2, segs.drop_first()));
    } else {
        let cur2 = cur.push(q[i]);
        assert(cur2 =~= q.subrange(j, i + 1));
        lemma_join_reconstructs(q, i + 1, j, b, q.subrange(j, i + 1));
        assert(segs == segs_from(q, i + 1, cur2));
    }
}

/// An absolute path in normal lexical form is a fixed point of
/// absolutization, whatever the working directory; a path with a
/// doubled separator or a `.` component (such as `/a//b` or `/a/./b`)
/// is first normalized and so is excluded here.
pub proof fn lemma_absolute_fixed_point(p: Seq<u8>, cwd: Seq<u8>)
    requires
        p.len() > 0,
        normalized_absolute(p),
    ensures
        abs_path_spec(p, cwd) == p,
{
    assert(!has_doubled_root(p)) by {
        if has_doubled_root(p) {
            assert(!(p[0] == SEP && p[1] == SEP));
        }
    }
    let comps = lex_components(p);
    assert(comps == segs_from(p, 0, Seq::empty()));
    assert(segs_from(p, 0, Seq::empty()) == segs_from(p, 1, Seq::empty()));
    let base = seq![SEP];
    if p.len() == 1 {
        assert(segs_from(p, 1, Seq::empty()) =~= Seq::<Seq<u8>>::empty());
        assert(join_components(base, comps) == base);
        assert(ends_with_sep(p));
        assert(push_component(base, Seq::empty()) =~= base);
        assert(base =~= p);
    } else if ends_with_sep(p) {
        assert(p.len() >= 3) by {
            if p.len() == 2 {
                assert(!(p[0] == SEP && p[1] == SEP));
            }
        }
        let q = p.drop_last();
        lemma_segs_drop_trailing(p, 1, Seq::empty());
        assert(q.len() >= 2);
        assert(q[0] == SEP);
        assert(q.last() != SEP) by {
            assert(!(p[p.len() - 2] == SEP && p[p.len() - 1] == SEP));
        }
        assert(no_repeated_sep(q)) by {
            assert forall|t: int| 0 <= t < q.len() - 1 implies !(#[trigger] q[t] == SEP && q[t + 1]
                == SEP) by {
                assert(!(p[t] == SEP && p[t + 1] == SEP));
            }
        }
        assert(no_dot_component(q)) by {
            assert forall|t: int| 0 <= t < q.len() implies !(#[trigger] q[t] == DOT && (t == 0
                || q[t - 1] == SEP) && (t + 1 == q.len() || q[t + 1] == SEP)) by {
                if t + 1 == q.len() {
                    assert(p[t + 1] == SEP);
                }
                assert(!(p[t] == DOT && (t == 0 || p[t - 1] == SEP) && (t + 1 == p.len() || p[t + 1]
                    == SEP)));
            }
        }
        let cur0 = q.subrange(1, 1);
        assert(cur0 =~= Seq::<u8>::empty());
        assert(base =~= q.subrange(0, 1));
        lemma_join_reconstructs(q, 1, 1, q.subrange(0, 1), cur0);
        assert(segs_from(q, 1, cur0) == segs_from(q, 1, Seq::empty()));
        assert(join_components(base, comps) == q);
        assert(abs_path_spec(p, cwd) == push_component(q, Seq::empty()));
        assert(push_component(q, Seq::empty()) =~= p);
    } else {
        let cur0 = p.subrange(1, 1);
        assert(cur0 =~= Seq::<u8>::empty());
        assert(base =~= p.subrange(0, 1));
        lemma_join_reconstructs(p, 1, 1, p.subrange(0, 1), cur0);
        assert(segs_from(p, 1, cur0) == segs_from(p, 1, Seq::empty()));
        assert(join_components(base, comps) == p);
    }
}

} // verus!
