use vstd::prelude::*;
use vstd::std_specs::iter::IteratorSpec;

verus! {

broadcast use vstd::string::group_string_axioms;

/// Unicode `White_Space` characters.
pub open spec fn is_white_space(c: char) -> bool {
    let u = c as u32;
    ||| 0x09 <= u <= 0x0D
    ||| u == 0x20
    ||| u == 0x85
    ||| u == 0xA0
    ||| u == 0x1680
    ||| 0x2000 <= u <= 0x200A
    ||| u == 0x2028
    ||| u == 0x2029
    ||| u == 0x202F
    ||| u == 0x205F
    ||| u == 0x3000
}

/// The text without its leading white space.
pub open spec fn trim_start(s: Seq<char>) -> Seq<char>
    decreases s.len(),
{
    if s.len() > 0 && is_white_space(s[0]) {
        trim_start(s.drop_first())
    } else {
        s
    }
}

/// The text without its trailing white space.
pub open spec fn trim_end(s: Seq<char>) -> Seq<char>
    decreases s.len(),
{
    if s.len() > 0 && is_white_space(s.last()) {
        trim_end(s.drop_last())
    } else {
        s
    }
}

/// The text without white space at either end.
pub open spec fn trim(s: Seq<char>) -> Seq<char> {
    trim_end(trim_start(s))
}

/// The lines of `s[start..]`, where the current line began at `start` and
/// the scan has reached `i`; lines are separated by `'\n'`.
pub open spec fn lines_from(s: Seq<char>, start: int, i: int) -> Seq<Seq<char>>
    decreases s.len() - i,
{
    if i >= s.len() {
        seq![s.subrange(start, s.len() as int)]
    } else if s[i] == '\n' {
        seq![s.subrange(start, i)] + lines_from(s, i + 1, i + 1)
    } else {
        lines_from(s, start, i + 1)
    }
}

/// The lines of a text, split at each `'\n'`.
pub open spec fn lines(s: Seq<char>) -> Seq<Seq<char>> {
    lines_from(s, 0, 0)
}

/// Two pieces of text joined by a newline, where an empty piece is left out.
pub open spec fn join_line(a: Seq<char>, b: Seq<char>) -> Seq<char> {
    if a.len() == 0 {
        b
    } else if b.len() == 0 {
        a
    } else {
        a + seq!['\n'] + b
    }
}

/// The lines, each trimmed, those left empty dropped, joined by `'\n'`.
pub open spec fn join_trimmed(ls: Seq<Seq<char>>) -> Seq<char>
    decreases ls.len(),
{
    if ls.len() == 0 {
        Seq::empty()
    } else {
        join_line(trim(ls[0]), join_trimmed(ls.drop_first()))
    }
}

/// A text with each line trimmed and the lines left empty removed.
pub open spec fn without_empty_lines(s: Seq<char>) -> Seq<char> {
    join_trimmed(lines(s))
}

proof fn lemma_join_line_assoc(a: Seq<char>, b: Seq<char>, c: Seq<char>)
    ensures
        join_line(join_line(a, b), c) == join_line(a, join_line(b, c)),
{
    if a.len() > 0 && b.len() > 0 && c.len() > 0 {
        assert(a + seq!['\n'] + b + seq!['\n'] + c =~= a + seq!['\n'] + (b + seq!['\n'] + c));
    }
}

/// Relies on String::push: appends the character at the end.
#[verifier::external_body]
pub(crate) fn push_char(s: &mut String, c: char)
    ensures
        final(s)@ == old(s)@.push(c),
{
    s.push(c);
}

/// Whether `c` is white space.
pub fn is_whitespace(c: char) -> (r: bool)
    ensures
        r == is_white_space(c),
{
    let u = c as u32;
    (0x09 <= u && u <= 0x0D) || u == 0x20 || u == 0x85 || u == 0xA0 || u == 0x1680 || (0x2000
        <= u && u <= 0x200A) || u == 0x2028 || u == 0x2029 || u == 0x202F || u == 0x205F || u
        == 0x3000
}

/// The characters of a text, in order.
pub fn chars_of(s: &str) -> (r: Vec<char>)
    ensures
        r@ == s@,
{
    let mut it = s.chars();
    let mut v: Vec<char> = Vec::new();
    loop
        invariant
            it.obeys_prophetic_iter_laws(),
            s@ == v@ + it.remaining(),
        decreases s@.len() - v@.len(),
    {
        match it.next() {
            Some(c) => {
                v.push(c);
                assert(s@ =~= v@ + it.remaining());
            },
            None => {
                assert(v@ =~= s@);
                return v;
            },
        }
    }
}

/// The bounds of `v[lo..hi]` without white space at either end.
pub(crate) fn trimmed_bounds(v: &Vec<char>, lo: usize, hi: usize) -> (r: (usize, usize))
    requires
        lo <= hi <= v@.len(),
    ensures
        lo <= r.0 <= r.1 <= hi,
        v@.subrange(r.0 as int, r.1 as int) == trim(v@.subrange(lo as int, hi as int)),
{
    let mut a = lo;
    while a < hi && is_whitespace(v[a])
        invariant
            lo <= a <= hi <= v@.len(),
            trim_start(v@.subrange(lo as int, hi as int)) == trim_start(
                v@.subrange(a as int, hi as int),
            ),
        decreases hi - a,
    {
        assert(v@.subrange(a as int, hi as int).drop_first() =~= v@.subrange(
            a + 1,
            hi as int,
        ));
        a = a + 1;
    }
    let ghost seg = v@.subrange(a as int, hi as int);
    assert(trim_start(seg) == seg);
    let mut b = hi;
    while b > a && is_whitespace(v[b - 1])
        invariant
            lo <= a <= b <= hi <= v@.len(),
            seg == v@.subrange(a as int, hi as int),
            trim_end(seg) == trim_end(v@.subrange(a as int, b as int)),
        decreases b - a,
    {
        assert(v@.subrange(a as int, b as int).drop_last() =~= v@.subrange(
            a as int,
            b - 1,
        ));
        b = b - 1;
    }
    (a, b)
}

/// Appends `v[lo..hi]` to `out`.
pub(crate) fn push_range(out: &mut String, v: &Vec<char>, lo: usize, hi: usize)
    requires
        lo <= hi <= v@.len(),
    ensures
        final(out)@ == old(out)@ + v@.subrange(lo as int, hi as int),
{
    let ghost start = out@;
    let mut k = lo;
    while k < hi
        invariant
            lo <= k <= hi <= v@.len(),
            out@ == start + v@.subrange(lo as int, k as int),
        decreases hi - k,
    {
        push_char(out, v[k]);
        k = k + 1;
        assert(out@ =~= start + v@.subrange(lo as int, k as int));
    }
}

/// Trims every line of `s` and drops the lines left empty; the remaining
/// lines are joined by `'\n'`.
pub fn remove_empty_lines(s: &str) -> (r: String)
    ensures
        r@ == without_empty_lines(s@),
{
    let v = chars_of(s);
    let n = v.len();
    let mut out = String::new();
    let mut filled = false;
    let mut start: usize = 0;
    let mut i: usize = 0;
    while i < n
        invariant
            n == v@.len(),
            v@ == s@,
            start <= i <= n,
            filled == (out@.len() > 0),
            without_empty_lines(s@) == join_line(out@, join_trimmed(lines_from(v@, start as int, i as int))),
        decreases n - i,
    {
        if v[i] == '\n' {
            let (a, b) = trimmed_bounds(&v, start, i);
            let ghost line = v@.subrange(start as int, i as int);
            let ghost rest = lines_from(v@, i + 1, i + 1);
            assert((seq![line] + rest).drop_first() =~= rest);
            assert(join_trimmed(seq![line] + rest) == join_line(trim(line), join_trimmed(rest)));
            proof {
                lemma_join_line_assoc(out@, trim(line), join_trimmed(rest));
            }
            if a < b {
                if filled {
                    push_char(&mut out, '\n');
                }
                push_range(&mut out, &v, a, b);
                filled = true;
            }
            start = i + 1;
        }
        i = i + 1;
    }
    let (a, b) = trimmed_bounds(&v, start, n);
    let ghost line = v@.subrange(start as int, n as int);
    assert(seq![line].drop_first() =~= Seq::<Seq<char>>::empty());
    assert(join_trimmed(Seq::<Seq<char>>::empty()) == Seq::<char>::empty());
    assert(join_trimmed(seq![line]) == join_line(trim(line), Seq::<char>::empty()));
    if a < b {
        if filled {
            push_char(&mut out, '\n');
        }
        push_range(&mut out, &v, a, b);
    }
    out
}

} // verus!
