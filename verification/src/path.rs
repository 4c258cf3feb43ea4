//! Paths held as text, with `/` as the separator: joining as `Path::join`
//! does, splitting into components as `Path::components` does, and testing
//! whether one path lies under another as `Path::starts_with` does.
use crate::text::chars_of;
use lexiclean::Lexiclean;
use vstd::prelude::*;

verus! {

/// `rel` joined onto `base`: an absolute `rel` replaces `base`; otherwise a
/// separator goes between them unless `base` is empty or already ends in
/// one.
pub open spec fn join(base: Seq<char>, rel: Seq<char>) -> Seq<char> {
    if rel.len() > 0 && rel[0] == '/' {
        rel
    } else if base.len() > 0 && base.last() != '/' {
        base + seq!['/'] + rel
    } else {
        base + rel
    }
}

/// `rel` joined onto `base`.
pub fn join_path(base: &str, rel: &str) -> (r: String)
    ensures
        r@ == join(base@, rel@),
{
    let b = chars_of(base);
    let r = chars_of(rel);
    if r.len() > 0 && r[0] == '/' {
        return String::from_str(rel);
    }
    let mut out = String::from_str(base);
    if b.len() > 0 && b[b.len() - 1] != '/' {
        crate::text::push_char(&mut out, '/');
    }
    out.append(rel);
    out
}

/// The component that a segment between separators makes, if any: empty
/// segments and `.` make none.
pub open spec fn kept(part: Seq<char>) -> Seq<Seq<char>> {
    if part.len() == 0 || part == seq!['.'] {
        Seq::empty()
    } else {
        seq![part]
    }
}

/// The normal components of `cur + s`, where `cur` holds the characters
/// already read of the current segment.
pub open spec fn parts_from(s: Seq<char>, cur: Seq<char>) -> Seq<Seq<char>>
    decreases s.len(),
{
    if s.len() == 0 {
        kept(cur)
    } else if s[0] == '/' {
        kept(cur) + parts_from(s.drop_first(), Seq::empty())
    } else {
        parts_from(s.drop_first(), cur.push(s[0]))
    }
}

/// The components of a path: `/` for the root of an absolute path, `.` for a
/// relative path that starts with the current directory, then the segments
/// between separators other than empty ones and `.`.
pub open spec fn components(s: Seq<char>) -> Seq<Seq<char>> {
    let head: Seq<Seq<char>> = if s.len() > 0 && s[0] == '/' {
        seq![seq!['/']]
    } else if s.len() > 0 && s[0] == '.' && (s.len() == 1 || s[1] == '/') {
        seq![seq!['.']]
    } else {
        Seq::empty()
    };
    head + parts_from(s, Seq::empty())
}

/// `p` starts with the components of `base`.
pub open spec fn within(p: Seq<char>, base: Seq<char>) -> bool {
    components(base).is_prefix_of(components(p))
}

/// The character sequences held by `v`.
pub open spec fn seqs(v: Seq<Vec<char>>) -> Seq<Seq<char>> {
    v.map_values(|x: Vec<char>| x@)
}

proof fn lemma_parts_step(s: Seq<char>, i: int, cur: Seq<char>)
    requires
        0 <= i < s.len(),
    ensures
        s[i] == '/' ==> parts_from(s.skip(i), cur) == kept(cur) + parts_from(
            s.skip(i + 1),
            Seq::empty(),
        ),
        s[i] != '/' ==> parts_from(s.skip(i), cur) == parts_from(s.skip(i + 1), cur.push(s[i])),
{
    assert(s.skip(i).drop_first() =~= s.skip(i + 1));
    assert(s.skip(i)[0] == s[i]);
}

/// Appends the component that `cur` makes, if any, to `out`.
fn push_kept(out: &mut Vec<Vec<char>>, cur: Vec<char>)
    ensures
        seqs(final(out)@) == seqs(old(out)@) + kept(cur@),
{
    let ghost c = cur@;
    let ghost before = seqs(out@);
    let is_dot = cur.len() == 1 && cur[0] == '.';
    if cur.len() == 0 || is_dot {
        assert(kept(c) =~= Seq::<Seq<char>>::empty()) by {
            if is_dot {
                assert(c =~= seq!['.']);
            }
        }
        assert(seqs(out@) =~= before + kept(c));
    } else {
        assert(c != seq!['.']) by {
            if c == seq!['.'] {
                assert(c.len() == 1 && c[0] == '.');
            }
        }
        out.push(cur);
        assert(seqs(out@) =~= before + kept(c));
    }
}

/// The components of the path `s`.
pub fn components_of(s: &Vec<char>) -> (r: Vec<Vec<char>>)
    ensures
        seqs(r@) == components(s@),
{
    let mut out: Vec<Vec<char>> = Vec::new();
    if s.len() > 0 && s[0] == '/' {
        let mut root = Vec::new();
        root.push('/');
        out.push(root);
    } else if s.len() > 0 && s[0] == '.' && (s.len() == 1 || s[1] == '/') {
        let mut dot = Vec::new();
        dot.push('.');
        out.push(dot);
    }
    let ghost head = seqs(out@);
    assert(head =~= components(s@).take(head.len() as int));
    let mut cur: Vec<char> = Vec::new();
    let mut i: usize = 0;
    assert(s@.skip(0) =~= s@);
    assert(cur@ =~= Seq::<char>::empty());
    assert(components(s@) =~= head + parts_from(s@, Seq::empty()));
    while i < s.len()
        invariant
            i <= s.len(),
            components(s@) == seqs(out@) + parts_from(s@.skip(i as int), cur@),
        decreases s.len() - i,
    {
        proof {
            lemma_parts_step(s@, i as int, cur@);
        }
        if s[i] == '/' {
            let ghost before = seqs(out@);
            let ghost c = cur@;
            push_kept(&mut out, cur);
            assert(components(s@) == seqs(out@) + parts_from(s@.skip(i + 1), Seq::empty())) by {
                assert(before + (kept(c) + parts_from(s@.skip(i + 1), Seq::empty())) =~= seqs(out@)
                    + parts_from(s@.skip(i + 1), Seq::empty()));
            }
            cur = Vec::new();
            assert(cur@ =~= Seq::<char>::empty());
        } else {
            cur.push(s[i]);
        }
        i = i + 1;
    }
    assert(s@.skip(i as int).len() == 0);
    push_kept(&mut out, cur);
    out
}

/// Tests two character vectors for equality.
pub fn chars_eq(a: &Vec<char>, b: &Vec<char>) -> (r: bool)
    ensures
        r == (a@ == b@),
{
    if a.len() != b.len() {
        return false;
    }
    let mut i: usize = 0;
    while i < a.len()
        invariant
            a.len() == b.len(),
            i <= a.len(),
            forall|k: int| 0 <= k < i ==> a@[k] == b@[k],
        decreases a.len() - i,
    {
        if a[i] != b[i] {
            return false;
        }
        i = i + 1;
    }
    assert(a@ =~= b@);
    true
}

/// Tests whether the path `p` lies under `base`, component by component.
pub fn path_within(p: &str, base: &str) -> (r: bool)
    ensures
        r == within(p@, base@),
{
    let pc = components_of(&chars_of(p));
    let bc = components_of(&chars_of(base));
    let ghost ps = seqs(pc@);
    let ghost bs = seqs(bc@);
    if bc.len() > pc.len() {
        return false;
    }
    let mut i: usize = 0;
    while i < bc.len()
        invariant
            ps == seqs(pc@),
            bs == seqs(bc@),
            ps == components(p@),
            bs == components(base@),
            bc.len() <= pc.len(),
            i <= bc.len(),
            forall|k: int| 0 <= k < i ==> bs[k] == ps[k],
        decreases bc.len() - i,
    {
        if !chars_eq(&bc[i], &pc[i]) {
            assert(bs[i as int] != ps[i as int]);
            return false;
        }
        i = i + 1;
    }
    assert(bs =~= ps.take(bs.len() as int));
    true
}

/// One component taken into the cleaned components `acc`: `.` is dropped;
/// `..` takes away a normal component before it, is dropped right after the
/// root, and is kept otherwise; any other component is kept.
pub open spec fn clean_step(acc: Seq<Seq<char>>, c: Seq<char>) -> Seq<Seq<char>> {
    if c == seq!['.'] {
        acc
    } else if c == seq!['.', '.'] {
        if acc.len() == 0 || acc.last() == seq!['.', '.'] {
            acc.push(c)
        } else if acc.last() == seq!['/'] {
            acc
        } else {
            acc.drop_last()
        }
    } else {
        acc.push(c)
    }
}

/// The components `cs` cleaned one after another.
pub open spec fn cleaned(cs: Seq<Seq<char>>) -> Seq<Seq<char>>
    decreases cs.len(),
{
    if cs.len() == 0 {
        Seq::empty()
    } else {
        clean_step(cleaned(cs.drop_last()), cs.last())
    }
}

/// Components written with `/` between them.
pub open spec fn slash_joined(cs: Seq<Seq<char>>) -> Seq<char>
    decreases cs.len(),
{
    if cs.len() == 0 {
        Seq::empty()
    } else if cs.len() == 1 {
        cs[0]
    } else {
        slash_joined(cs.drop_last()) + seq!['/'] + cs.last()
    }
}

/// The path that components make when pushed in order: the root, then the
/// others with `/` between them; `.` when there are none.
pub open spec fn path_of(cs: Seq<Seq<char>>) -> Seq<char> {
    if cs.len() == 0 {
        seq!['.']
    } else if cs[0] == seq!['/'] {
        seq!['/'] + slash_joined(cs.drop_first())
    } else {
        slash_joined(cs)
    }
}

/// The lexically cleaned form of a path that `lexiclean::Lexiclean` gives:
/// its components, with `.` dropped and each `..` taking away the normal
/// component before it, written out again.
pub open spec fn lexiclean_spec(path: Seq<char>) -> Seq<char> {
    path_of(cleaned(components(path)))
}

/// Calls `Lexiclean::lexiclean` on the path `path`. The crate walks
/// `Path::components`, skips `.`, lets `..` pop a normal component, drops
/// it after the root and keeps it otherwise, puts `.` for an empty result
/// and collects the components into a path; as `path` is text, the result
/// is text again.
#[verifier::external_body]
pub(crate) fn lexiclean_path(path: &str) -> (r: String)
    ensures
        r@ == lexiclean_spec(path@),
{
    std::path::Path::new(path).lexiclean().to_string_lossy().into_owned()
}

} // verus!
