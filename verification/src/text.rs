//! Character-level text helpers: conversions between `str`, `String` and
//! `Vec<char>`, whitespace trimming, line splitting and joining, and decimal
//! rendering of integers. Each is stated over `Seq<char>`.
use vstd::prelude::*;

verus! {

/// The characters with the Unicode `White_Space` property, which is what
/// `char::is_whitespace` and `str::trim` test.
pub open spec fn is_space(c: char) -> bool {
    let u = c as u32;
    ||| 0x09 <= u <= 0x0D
    ||| u == 0x20
    ||| u == 0x85
    ||| u == 0xA0
    ||| u == 0x1680
    ||| 0x2000 <= u <= 0x200A
    ||| u == 0x2028
    ||| u == 0x2029
    ||| u == 0x202F
    ||| u == 0x205F
    ||| u == 0x3000
}

/// Tests whether `c` is white space in the sense of `is_space`.
pub fn is_space_char(c: char) -> (r: bool)
    ensures
        r == is_space(c),
{
    let u = c as u32;
    (0x09 <= u && u <= 0x0D) || u == 0x20 || u == 0x85 || u == 0xA0 || u == 0x1680 || (0x2000 <= u
        && u <= 0x200A) || u == 0x2028 || u == 0x2029 || u == 0x202F || u == 0x205F || u == 0x3000
}

/// `s` without its leading white space.
pub open spec fn trim_start(s: Seq<char>) -> Seq<char>
    decreases s.len(),
{
    if s.len() > 0 && is_space(s[0]) {
        trim_start(s.drop_first())
    } else {
        s
    }
}

/// `s` without its trailing white space.
pub open spec fn trim_end(s: Seq<char>) -> Seq<char>
    decreases s.len(),
{
    if s.len() > 0 && is_space(s.last()) {
        trim_end(s.drop_last())
    } else {
        s
    }
}

/// `s` without leading and trailing white space, as `str::trim` gives it.
pub open spec fn trim(s: Seq<char>) -> Seq<char> {
    trim_end(trim_start(s))
}

/// The character sequences held by `v`.
pub open spec fn seqs_of(v: Seq<Vec<char>>) -> Seq<Seq<char>> {
    v.map_values(|x: Vec<char>| x@)
}

/// Drops one `'\r'` at the end of `line`, if there is one.
pub open spec fn strip_cr(line: Seq<char>) -> Seq<char> {
    if line.len() > 0 && line.last() == '\r' {
        line.drop_last()
    } else {
        line
    }
}

/// The lines of `cur + s`, where `cur` holds the characters already read of
/// the current line: a line ends at `'\n'` (a `'\r'` just before it is
/// dropped), and a last line that is empty is not a line.
pub open spec fn lines_from(s: Seq<char>, cur: Seq<char>) -> Seq<Seq<char>>
    decreases s.len(),
{
    if s.len() == 0 {
        if cur.len() == 0 {
            Seq::empty()
        } else {
            seq![cur]
        }
    } else if s[0] == '\n' {
        seq![strip_cr(cur)] + lines_from(s.drop_first(), Seq::empty())
    } else {
        lines_from(s.drop_first(), cur.push(s[0]))
    }
}

/// The lines of `s`, as `str::lines` yields them.
pub open spec fn lines(s: Seq<char>) -> Seq<Seq<char>> {
    lines_from(s, Seq::empty())
}

/// The pieces of `parts` with `'\n'` between each two of them.
pub open spec fn join_lines(parts: Seq<Seq<char>>) -> Seq<char>
    decreases parts.len(),
{
    if parts.len() == 0 {
        Seq::empty()
    } else if parts.len() == 1 {
        parts[0]
    } else {
        join_lines(parts.drop_last()) + seq!['\n'] + parts.last()
    }
}

/// The decimal digits of `n`, most significant first.
pub open spec fn digits(n: nat) -> Seq<char>
    decreases n,
{
    if n < 10 {
        seq![digit_char(n)]
    } else {
        digits(n / 10) + seq![digit_char(n % 10)]
    }
}

/// The character of the decimal digit `d`.
pub open spec fn digit_char(d: nat) -> char {
    if d == 0 {
        '0'
    } else if d == 1 {
        '1'
    } else if d == 2 {
        '2'
    } else if d == 3 {
        '3'
    } else if d == 4 {
        '4'
    } else if d == 5 {
        '5'
    } else if d == 6 {
        '6'
    } else if d == 7 {
        '7'
    } else if d == 8 {
        '8'
    } else {
        '9'
    }
}

/// `n` in decimal, with a `'-'` in front when it is negative.
pub open spec fn int_text(n: int) -> Seq<char> {
    if n < 0 {
        seq!['-'] + digits((-n) as nat)
    } else {
        digits(n as nat)
    }
}

/// A piece without line breaks followed by one reads as one line: the
/// characters read so far and the piece.
pub proof fn lemma_lines_head(cur: Seq<char>, s: Seq<char>, rest: Seq<char>)
    requires
        forall|i: int| 0 <= i < s.len() ==> s[i] != '\n',
    ensures
        lines_from(s + seq!['\n'] + rest, cur) == seq![strip_cr(cur + s)] + lines_from(
            rest,
            Seq::empty(),
        ),
    decreases s.len(),
{
    if s.len() == 0 {
        assert(s + seq!['\n'] + rest =~= seq!['\n'] + rest);
        assert((seq!['\n'] + rest).drop_first() =~= rest);
        assert(cur + s =~= cur);
    } else {
        let t = s.drop_first();
        assert((s + seq!['\n'] + rest).drop_first() =~= t + seq!['\n'] + rest);
        assert((s + seq!['\n'] + rest)[0] == s[0]);
        lemma_lines_head(cur.push(s[0]), t, rest);
        assert(cur.push(s[0]) + t =~= cur + s);
    }
}

/// Joining with line breaks puts one between the first piece and the rest.
pub proof fn lemma_join_cons(x: Seq<char>, ls: Seq<Seq<char>>)
    requires
        ls.len() > 0,
    ensures
        join_lines(seq![x] + ls) == x + seq!['\n'] + join_lines(ls),
    decreases ls.len(),
{
    if ls.len() == 1 {
        let xs = seq![x] + ls;
        assert(xs.drop_last() =~= seq![x]);
        assert(xs.last() == ls[0]);
        assert(join_lines(xs) == join_lines(xs.drop_last()) + seq!['\n'] + xs.last());
        assert(join_lines(seq![x]) == x);
        assert(x + seq!['\n'] + ls[0] =~= x + seq!['\n'] + join_lines(ls));
    } else {
        let xs = seq![x] + ls;
        assert(xs.drop_last() =~= seq![x] + ls.drop_last());
        assert(xs.last() == ls.last());
        assert(join_lines(xs) == join_lines(xs.drop_last()) + seq!['\n'] + xs.last());
        assert(join_lines(ls) == join_lines(ls.drop_last()) + seq!['\n'] + ls.last());
        lemma_join_cons(x, ls.drop_last());
        assert(x + seq!['\n'] + join_lines(ls.drop_last()) + seq!['\n'] + ls.last() =~= x + seq![
            '\n',
        ] + join_lines(ls));
    }
}

/// The lines of a text without `'\r'` and without a line break at its end,
/// joined with line breaks, are the text (after the characters read so far).
pub proof fn lemma_join_lines_from(cur: Seq<char>, d: Seq<char>)
    requires
        forall|i: int| 0 <= i < d.len() ==> d[i] != '\r',
        forall|i: int| 0 <= i < cur.len() ==> cur[i] != '\r',
        d.len() == 0 || d.last() != '\n',
    ensures
        join_lines(lines_from(d, cur)) == cur + d,
        cur.len() + d.len() > 0 ==> lines_from(d, cur).len() > 0,
    decreases d.len(),
{
    if d.len() == 0 {
        assert(cur + d =~= cur);
        if cur.len() > 0 {
            assert(join_lines(seq![cur]) == cur);
        }
    } else if d[0] == '\n' {
        let rest = d.drop_first();
        assert(rest.len() > 0);
        assert(rest.last() == d.last());
        lemma_join_lines_from(Seq::empty(), rest);
        assert(strip_cr(cur) == cur) by {
            if cur.len() > 0 {
                assert(cur[cur.len() - 1] != '\r');
            }
        }
        lemma_join_cons(cur, lines_from(rest, Seq::empty()));
        assert(Seq::<char>::empty() + rest =~= rest);
        assert(cur + seq!['\n'] + rest =~= cur + d);
    } else {
        let rest = d.drop_first();
        if rest.len() > 0 {
            assert(rest.last() == d.last());
        }
        lemma_join_lines_from(cur.push(d[0]), rest);
        assert(cur.push(d[0]) + rest =~= cur + d);
    }
}

proof fn lemma_trim_start_len(s: Seq<char>)
    ensures
        trim_start(s).len() <= s.len(),
        s.len() > 0 && is_space(s[0]) ==> trim_start(s).len() < s.len(),
        !(s.len() > 0 && is_space(s[0])) ==> trim_start(s) == s,
    decreases s.len(),
{
    if s.len() > 0 && is_space(s[0]) {
        lemma_trim_start_len(s.drop_first());
    }
}

proof fn lemma_trim_end_len(s: Seq<char>)
    ensures
        trim_end(s).len() <= s.len(),
        s.len() > 0 && is_space(s.last()) ==> trim_end(s).len() < s.len(),
    decreases s.len(),
{
    if s.len() > 0 && is_space(s.last()) {
        lemma_trim_end_len(s.drop_last());
    }
}

/// A text that trimming leaves as it is neither starts nor ends with white
/// space.
pub proof fn lemma_trimmed_ends(s: Seq<char>)
    requires
        trim(s) == s,
        s.len() > 0,
    ensures
        !is_space(s[0]),
        !is_space(s.last()),
{
    lemma_trim_start_len(s);
    lemma_trim_end_len(trim_start(s));
    if !is_space(s[0]) {
        lemma_trim_end_len(s);
    }
}

/// Appends `c` to `s`.
#[verifier::external_body]
pub(crate) fn push_char(s: &mut String, c: char)
    ensures
        final(s)@ == old(s)@.push(c),
{
    s.push(c);
}

/// The characters of `s`.
pub fn chars_of(s: &str) -> (r: Vec<char>)
    ensures
        r@ == s@,
{
    let n = s.unicode_len();
    let mut v: Vec<char> = Vec::new();
    let mut i: usize = 0;
    while i < n
        invariant
            n == s@.len(),
            i <= n,
            v@ == s@.take(i as int),
        decreases n - i,
    {
        let c = s.get_char(i);
        v.push(c);
        i = i + 1;
        assert(v@ =~= s@.take(i as int));
    }
    assert(v@ =~= s@);
    v
}

/// The string made of the characters `cs`.
pub fn string_of(cs: &Vec<char>) -> (r: String)
    ensures
        r@ == cs@,
{
    let mut s = String::new();
    let mut i: usize = 0;
    while i < cs.len()
        invariant
            i <= cs.len(),
            s@ == cs@.take(i as int),
        decreases cs.len() - i,
    {
        push_char(&mut s, cs[i]);
        i = i + 1;
        assert(s@ =~= cs@.take(i as int));
    }
    assert(s@ =~= cs@);
    s
}

/// Tests two strings for equality.
pub fn str_eq(a: &str, b: &str) -> (r: bool)
    ensures
        r == (a@ == b@),
{
    let x = chars_of(a);
    let y = chars_of(b);
    if x.len() != y.len() {
        return false;
    }
    let mut i: usize = 0;
    while i < x.len()
        invariant
            x@ == a@,
            y@ == b@,
            x.len() == y.len(),
            i <= x.len(),
            forall|k: int| 0 <= k < i ==> x@[k] == y@[k],
        decreases x.len() - i,
    {
        if x[i] != y[i] {
            return false;
        }
        i = i + 1;
    }
    assert(x@ =~= y@);
    true
}

proof fn lemma_trim_start_step(s: Seq<char>, i: int)
    requires
        0 <= i < s.len(),
        is_space(s[i]),
    ensures
        trim_start(s.skip(i)) == trim_start(s.skip(i + 1)),
{
    assert(s.skip(i).drop_first() =~= s.skip(i + 1));
}

proof fn lemma_trim_end_step(s: Seq<char>, j: int)
    requires
        0 < j <= s.len(),
        is_space(s[j - 1]),
    ensures
        trim_end(s.take(j)) == trim_end(s.take(j - 1)),
{
    assert(s.take(j).drop_last() =~= s.take(j - 1));
}

/// `s` without leading and trailing white space.
pub fn trim_chars(s: &Vec<char>) -> (r: Vec<char>)
    ensures
        r@ == trim(s@),
{
    let n = s.len();
    let mut i: usize = 0;
    assert(s@.skip(0) =~= s@);
    while i < n && is_space_char(s[i])
        invariant
            n == s.len(),
            i <= n,
            trim_start(s@) == trim_start(s@.skip(i as int)),
        decreases n - i,
    {
        proof {
            lemma_trim_start_step(s@, i as int);
        }
        i = i + 1;
    }
    let ghost t = s@.skip(i as int);
    assert(trim_start(s@) == t) by {
        if i < n {
            assert(t[0] == s@[i as int]);
        } else {
            assert(t.len() == 0);
        }
    }
    let mut j: usize = n;
    assert(t.take(n - i) =~= t);
    while j > i && is_space_char(s[j - 1])
        invariant
            n == s.len(),
            i <= j <= n,
            t == s@.skip(i as int),
            trim_end(t) == trim_end(t.take(j - i)),
        decreases j,
    {
        proof {
            lemma_trim_end_step(t, (j - i) as int);
        }
        j = j - 1;
    }
    assert(trim_end(t.take(j - i)) == t.take(j - i)) by {
        if j > i {
            assert(t.take(j - i).last() == s@[j - 1]);
        }
    }
    let mut r: Vec<char> = Vec::new();
    let mut k: usize = i;
    while k < j
        invariant
            i <= k <= j <= n,
            n == s.len(),
            r@ == s@.subrange(i as int, k as int),
        decreases j - k,
    {
        r.push(s[k]);
        k = k + 1;
        assert(r@ =~= s@.subrange(i as int, k as int));
    }
    assert(r@ =~= t.take(j - i));
    r
}

proof fn lemma_lines_step(s: Seq<char>, i: int, cur: Seq<char>)
    requires
        0 <= i < s.len(),
    ensures
        s[i] == '\n' ==> lines_from(s.skip(i), cur) == seq![strip_cr(cur)] + lines_from(
            s.skip(i + 1),
            Seq::empty(),
        ),
        s[i] != '\n' ==> lines_from(s.skip(i), cur) == lines_from(s.skip(i + 1), cur.push(s[i])),
{
    assert(s.skip(i).drop_first() =~= s.skip(i + 1));
    assert(s.skip(i)[0] == s[i]);
}

/// The lines of `s`, as `str::lines` yields them.
pub fn lines_of(s: &Vec<char>) -> (r: Vec<Vec<char>>)
    ensures
        seqs_of(r@) == lines(s@),
{
    let mut out: Vec<Vec<char>> = Vec::new();
    let mut cur: Vec<char> = Vec::new();
    let mut i: usize = 0;
    assert(s@.skip(0) =~= s@);
    assert(seqs_of(out@) =~= Seq::<Seq<char>>::empty());
    assert(cur@ =~= Seq::<char>::empty());
    assert(lines(s@) =~= seqs_of(out@) + lines_from(s@.skip(0), cur@));
    while i < s.len()
        invariant
            i <= s.len(),
            lines(s@) == seqs_of(out@) + lines_from(s@.skip(i as int), cur@),
        decreases s.len() - i,
    {
        proof {
            lemma_lines_step(s@, i as int, cur@);
        }
        if s[i] == '\n' {
            let mut line = cur;
            if line.len() > 0 && line[line.len() - 1] == '\r' {
                line.pop();
                assert(line@ =~= strip_cr(cur@));
            }
            let ghost before = seqs_of(out@);
            out.push(line);
            assert(seqs_of(out@) =~= before + seq![strip_cr(cur@)]);
            assert(lines(s@) == seqs_of(out@) + lines_from(s@.skip(i + 1), Seq::empty())) by {
                assert(before + (seq![strip_cr(cur@)] + lines_from(s@.skip(i + 1), Seq::empty()))
                    =~= seqs_of(out@) + lines_from(s@.skip(i + 1), Seq::empty()));
            }
            cur = Vec::new();
            assert(cur@ =~= Seq::<char>::empty());
        } else {
            cur.push(s[i]);
        }
        i = i + 1;
    }
    assert(s@.skip(i as int).len() == 0);
    if cur.len() > 0 {
        let ghost before = seqs_of(out@);
        let ghost c = cur@;
        out.push(cur);
        assert(seqs_of(out@) =~= before + seq![c]);
    } else {
        assert(seqs_of(out@) =~= seqs_of(out@) + Seq::<Seq<char>>::empty());
    }
    out
}

/// The characters of `parts` with `'\n'` between each two of them.
pub fn join_lines_of(parts: &Vec<Vec<char>>, from: usize) -> (r: Vec<char>)
    requires
        from <= parts.len(),
    ensures
        r@ == join_lines(seqs_of(parts@).skip(from as int)),
{
    let mut r: Vec<char> = Vec::new();
    let mut i: usize = from;
    while i < parts.len()
        invariant
            from <= i <= parts.len(),
            r@ == join_lines(seqs_of(parts@).subrange(from as int, i as int)),
        decreases parts.len() - i,
    {
        let ghost prev = seqs_of(parts@).subrange(from as int, i as int);
        let ghost next = seqs_of(parts@).subrange(from as int, i + 1);
        assert(next.drop_last() =~= prev);
        assert(next.last() == parts[i as int]@);
        if i > from {
            r.push('\n');
        }
        let mut k: usize = 0;
        let ghost base = r@;
        while k < parts[i].len()
            invariant
                i < parts.len(),
                k <= parts[i as int].len(),
                r@ == base + parts[i as int]@.take(k as int),
            decreases parts[i as int].len() - k,
        {
            r.push(parts[i][k]);
            k = k + 1;
            assert(r@ =~= base + parts[i as int]@.take(k as int));
        }
        assert(parts[i as int]@.take(k as int) =~= parts[i as int]@);
        if i == from {
            assert(prev.len() == 0);
            assert(r@ =~= join_lines(next));
        } else {
            assert(r@ =~= join_lines(next));
        }
        i = i + 1;
    }
    assert(seqs_of(parts@).subrange(from as int, parts.len() as int) =~= seqs_of(parts@).skip(
        from as int,
    ));
    r
}

proof fn lemma_digits_len(n: nat)
    ensures
        digits(n).len() >= 1,
    decreases n,
{
    if n >= 10 {
        lemma_digits_len(n / 10);
    }
}

/// The decimal digits of `n`.
pub fn digits_of(n: u64) -> (r: Vec<char>)
    ensures
        r@ == digits(n as nat),
    decreases n,
{
    let d = n % 10;
    let c = if d == 0 {
        '0'
    } else if d == 1 {
        '1'
    } else if d == 2 {
        '2'
    } else if d == 3 {
        '3'
    } else if d == 4 {
        '4'
    } else if d == 5 {
        '5'
    } else if d == 6 {
        '6'
    } else if d == 7 {
        '7'
    } else if d == 8 {
        '8'
    } else {
        '9'
    };
    assert(c == digit_char((n % 10) as nat));
    if n < 10 {
        let mut v = Vec::new();
        v.push(c);
        assert(v@ =~= seq![c]);
        v
    } else {
        let mut v = digits_of(n / 10);
        v.push(c);
        v
    }
}

/// `n` in decimal.
pub fn int_string(n: i32) -> (r: String)
    ensures
        r@ == int_text(n as int),
{
    let mut out = String::new();
    let magnitude: u64 = if n < 0 {
        push_char(&mut out, '-');
        (0 - (n as i64)) as u64
    } else {
        n as u64
    };
    let ds = digits_of(magnitude);
    let tail = string_of(&ds);
    out.append(tail.as_str());
    assert(out@ =~= int_text(n as int));
    out
}

} // verus!
