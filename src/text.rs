//! Character-level helpers shared by the environment resolver, the command
//! resolver and the task listing.

use vstd::prelude::*;
use vstd::string::*;

verus! {

/// A character with the Unicode `White_Space` property: tab, line feed,
/// vertical tab, form feed, carriage return, space, next line, no-break
/// space, ogham space mark, the spaces U+2000 to U+200A, line separator,
/// paragraph separator, narrow no-break space, medium mathematical space
/// and ideographic space.
pub open spec fn white_space(c: char) -> bool {
    let u = c as int;
    ||| 0x9 <= u <= 0xD
    ||| u == 0x20
    ||| u == 0x85
    ||| u == 0xA0
    ||| u == 0x1680
    ||| 0x2000 <= u <= 0x200A
    ||| u == 0x2028
    ||| u == 0x2029
    ||| u == 0x202F
    ||| u == 0x205F
    ||| u == 0x3000
}

/// What `char::is_alphanumeric` returns for a character (the Unicode
/// `Alphabetic` or `Numeric` properties).
pub uninterp spec fn alphanumeric(c: char) -> bool;

/// Whether `c` is white space.
pub fn is_space(c: char) -> (r: bool)
    ensures
        r == white_space(c),
{
    let u = c as u32;
    (0x9 <= u && u <= 0xD) || u == 0x20 || u == 0x85 || u == 0xA0 || u == 0x1680 || (0x2000 <= u
        && u <= 0x200A) || u == 0x2028 || u == 0x2029 || u == 0x202F || u == 0x205F || u == 0x3000
}

/// Relies on `char::is_alphanumeric`, which depends on the character alone.
#[verifier::external_body]
pub(crate) fn is_alnum(c: char) -> (r: bool)
    ensures
        r == alphanumeric(c),
{
    c.is_alphanumeric()
}

/// Relies on `String::push`: the character is appended at the end.
#[verifier::external_body]
pub(crate) fn push_char(s: &mut String, c: char)
    ensures
        final(s)@ == old(s)@.push(c),
{
    s.push(c)
}

/// The characters of a string slice, in order.
pub fn chars_of(s: &str) -> (r: Vec<char>)
    ensures
        r@ == s@,
{
    let n = s.unicode_len();
    let mut r: Vec<char> = Vec::new();
    let mut i: usize = 0;
    while i < n
        invariant
            n == s@.len(),
            i <= n,
            r@ == s@.subrange(0, i as int),
        decreases n - i,
    {
        r.push(s.get_char(i));
        i += 1;
    }
    r
}

/// Appends the characters `cs[from..to]` to `out`.
pub fn push_chars(out: &mut String, cs: &[char], from: usize, to: usize)
    requires
        from <= to <= cs@.len(),
    ensures
        final(out)@ == old(out)@ + cs@.subrange(from as int, to as int),
{
    let mut i: usize = from;
    while i < to
        invariant
            from <= i <= to <= cs@.len(),
            out@ == old(out)@ + cs@.subrange(from as int, i as int),
        decreases to - i,
    {
        push_char(out, cs[i]);
        i += 1;
        assert(cs@.subrange(from as int, i as int) == cs@.subrange(from as int, i - 1).push(
            cs@[i - 1],
        ));
    }
}

/// A string holding exactly the characters `cs[from..to]`.
pub fn string_of(cs: &[char], from: usize, to: usize) -> (r: String)
    requires
        from <= to <= cs@.len(),
    ensures
        r@ == cs@.subrange(from as int, to as int),
{
    let mut r = String::new();
    push_chars(&mut r, cs, from, to);
    r
}

/// The words of `s`: its maximal runs of characters not marked in
/// `spaces`, in order. `cur` is the word being read so far.
pub open spec fn words_marked(s: Seq<char>, spaces: Seq<bool>, cur: Seq<char>) -> Seq<Seq<char>>
    decreases s.len(),
{
    if s.len() == 0 {
        if cur.len() == 0 {
            seq![]
        } else {
            seq![cur]
        }
    } else if spaces[0] {
        if cur.len() == 0 {
            words_marked(s.drop_first(), spaces.drop_first(), seq![])
        } else {
            seq![cur] + words_marked(s.drop_first(), spaces.drop_first(), seq![])
        }
    } else {
        words_marked(s.drop_first(), spaces.drop_first(), cur.push(s[0]))
    }
}

/// For each character of `s`, whether it is white space.
pub open spec fn space_marks(s: Seq<char>) -> Seq<bool> {
    Seq::new(s.len(), |i: int| white_space(s[i]))
}

/// The whitespace-separated words of `s`.
pub open spec fn words(s: Seq<char>) -> Seq<Seq<char>> {
    words_marked(s, space_marks(s), seq![])
}

/// The views of a sequence of strings.
pub open spec fn views(v: Seq<String>) -> Seq<Seq<char>> {
    v.map_values(|x: String| x@)
}

proof fn lemma_blank_marked(s: Seq<char>, sp: Seq<bool>)
    requires
        sp.len() == s.len(),
        forall|i: int| 0 <= i < sp.len() ==> #[trigger] sp[i],
    ensures
        words_marked(s, sp, seq![]).len() == 0,
    decreases s.len(),
{
    if s.len() > 0 {
        assert forall|i: int| 0 <= i < sp.drop_first().len() implies #[trigger] sp.drop_first()[i] by {
            assert(sp.drop_first()[i] == sp[i + 1]);
        }
        lemma_blank_marked(s.drop_first(), sp.drop_first());
    }
}

/// A string made of white space only has no words.
pub proof fn lemma_blank_has_no_words(s: Seq<char>)
    requires
        forall|i: int| 0 <= i < s.len() ==> white_space(#[trigger] s[i]),
    ensures
        words(s).len() == 0,
{
    lemma_blank_marked(s, space_marks(s));
}

/// Splits `s` into words at the characters that `spaces` marks.
pub fn split_marked(s: &[char], spaces: &[bool]) -> (r: Vec<String>)
    requires
        spaces@.len() == s@.len(),
    ensures
        views(r@) == words_marked(s@, spaces@, seq![]),
{
    let mut r: Vec<String> = Vec::new();
    let mut cur = String::new();
    let mut i: usize = 0;
    assert(s@.skip(0) == s@ && spaces@.skip(0) == spaces@);
    assert(views(r@) + words_marked(s@, spaces@, seq![]) == words_marked(s@, spaces@, seq![]));
    while i < s.len()
        invariant
            spaces@.len() == s@.len(),
            i <= s@.len(),
            views(r@) + words_marked(s@.skip(i as int), spaces@.skip(i as int), cur@)
                == words_marked(s@, spaces@, seq![]),
        decreases s@.len() - i,
    {
        let c = s[i];
        let ghost rest = s@.skip(i as int);
        let ghost mrest = spaces@.skip(i as int);
        let ghost old_r = views(r@);
        assert(rest.drop_first() == s@.skip(i + 1));
        assert(mrest.drop_first() == spaces@.skip(i + 1));
        assert(rest[0] == c && mrest[0] == spaces@[i as int]);
        if spaces[i] {
            if cur.unicode_len() > 0 {
                proof {
                    let tail = words_marked(rest.drop_first(), mrest.drop_first(), seq![]);
                    assert(views(r@.push(cur)) == views(r@) + seq![cur@]);
                    assert(old_r + (seq![cur@] + tail) == (old_r + seq![cur@]) + tail);
                }
                r.push(cur);
                cur = String::new();
                assert(cur@ == Seq::<char>::empty());
            } else {
                assert(cur@ =~= seq![]);
            }
        } else {
            push_char(&mut cur, c);
        }
        i += 1;
    }
    proof {
        let last = words_marked(s@.skip(i as int), spaces@.skip(i as int), cur@);
        if cur@.len() > 0 {
            assert(views(r@.push(cur)) == views(r@) + last);
        } else {
            assert(cur@ =~= seq![]);
            assert(views(r@) + last == views(r@));
        }
    }
    if cur.unicode_len() > 0 {
        r.push(cur);
    }
    r
}

/// Splits `s` into its whitespace-separated words.
pub fn split_words(s: &[char]) -> (r: Vec<String>)
    ensures
        views(r@) == words(s@),
{
    let spaces = spaces_of(s);
    split_marked(s, spaces.as_slice())
}

/// `s` without its leading characters that `sp` marks as space, with the
/// marks of what is left.
pub open spec fn trim_start(s: Seq<char>, sp: Seq<bool>) -> (Seq<char>, Seq<bool>)
    decreases s.len(),
{
    if s.len() > 0 && sp.len() > 0 && sp[0] {
        trim_start(s.drop_first(), sp.drop_first())
    } else {
        (s, sp)
    }
}

/// `s` without its trailing characters that `sp` marks as space, with the
/// marks of what is left.
pub open spec fn trim_end(s: Seq<char>, sp: Seq<bool>) -> (Seq<char>, Seq<bool>)
    decreases s.len(),
{
    if s.len() > 0 && sp.len() == s.len() && sp.last() {
        trim_end(s.drop_last(), sp.drop_last())
    } else {
        (s, sp)
    }
}

/// `s` without its leading and trailing characters that `sp` marks as
/// space, with the marks of what is left.
pub open spec fn trimmed(s: Seq<char>, sp: Seq<bool>) -> (Seq<char>, Seq<bool>) {
    let a = trim_start(s, sp);
    trim_end(a.0, a.1)
}

/// The bounds of `cs[from..to]` once its leading and trailing characters
/// that `sp` marks as space are left out.
pub fn trim_range(cs: &[char], sp: &[bool], from: usize, to: usize) -> (r: (usize, usize))
    requires
        from <= to <= cs@.len(),
        sp@.len() == cs@.len(),
    ensures
        from <= r.0 <= r.1 <= to,
        (cs@.subrange(r.0 as int, r.1 as int), sp@.subrange(r.0 as int, r.1 as int)) == trimmed(
            cs@.subrange(from as int, to as int),
            sp@.subrange(from as int, to as int),
        ),
{
    let mut i: usize = from;
    while i < to && sp[i]
        invariant
            from <= i <= to <= cs@.len(),
            sp@.len() == cs@.len(),
            trim_start(cs@.subrange(i as int, to as int), sp@.subrange(i as int, to as int))
                == trim_start(cs@.subrange(from as int, to as int), sp@.subrange(from as int, to as int)),
        decreases to - i,
    {
        assert(cs@.subrange(i as int, to as int).drop_first() == cs@.subrange(i + 1, to as int));
        assert(sp@.subrange(i as int, to as int).drop_first() == sp@.subrange(i + 1, to as int));
        i += 1;
    }
    let mut j: usize = to;
    while j > i && sp[j - 1]
        invariant
            from <= i <= j <= to <= cs@.len(),
            sp@.len() == cs@.len(),
            trim_end(cs@.subrange(i as int, j as int), sp@.subrange(i as int, j as int)) == trim_end(
                cs@.subrange(i as int, to as int),
                sp@.subrange(i as int, to as int),
            ),
        decreases j - i,
    {
        assert(cs@.subrange(i as int, j as int).drop_last() == cs@.subrange(i as int, j - 1));
        assert(sp@.subrange(i as int, j as int).drop_last() == sp@.subrange(i as int, j - 1));
        j -= 1;
    }
    (i, j)
}

/// The lines of `s` with their marks `sp`: the pieces between newline
/// characters, in order. `cur` and `cur_sp` are the line being read so far.
pub open spec fn lines_from(s: Seq<char>, sp: Seq<bool>, cur: Seq<char>, cur_sp: Seq<bool>) -> Seq<
    (Seq<char>, Seq<bool>),
>
    decreases s.len(),
{
    if s.len() == 0 {
        seq![(cur, cur_sp)]
    } else if s[0] == '\n' {
        seq![(cur, cur_sp)] + lines_from(s.drop_first(), sp.drop_first(), seq![], seq![])
    } else {
        lines_from(s.drop_first(), sp.drop_first(), cur.push(s[0]), cur_sp.push(sp[0]))
    }
}

/// The newline-separated lines of `s` with their marks `sp`.
pub open spec fn lines(s: Seq<char>, sp: Seq<bool>) -> Seq<(Seq<char>, Seq<bool>)> {
    lines_from(s, sp, seq![], seq![])
}

/// For each character of `cs`, whether it is white space.
pub fn spaces_of(cs: &[char]) -> (r: Vec<bool>)
    ensures
        r@ == space_marks(cs@),
{
    let mut r: Vec<bool> = Vec::new();
    let mut i: usize = 0;
    while i < cs.len()
        invariant
            i <= cs@.len(),
            r@ == space_marks(cs@).take(i as int),
        decreases cs@.len() - i,
    {
        r.push(is_space(cs[i]));
        i += 1;
        assert(r@ =~= space_marks(cs@).take(i as int));
    }
    assert(r@ =~= space_marks(cs@));
    r
}

/// The decimal digit for `d`.
pub open spec fn digit(d: nat) -> char {
    if d == 0 {
        '0'
    } else if d == 1 {
        '1'
    } else if d == 2 {
        '2'
    } else if d == 3 {
        '3'
    } else if d == 4 {
        '4'
    } else if d == 5 {
        '5'
    } else if d == 6 {
        '6'
    } else if d == 7 {
        '7'
    } else if d == 8 {
        '8'
    } else {
        '9'
    }
}

/// `n` written in decimal, without leading zeros.
pub open spec fn decimal(n: nat) -> Seq<char>
    decreases n,
{
    if n < 10 {
        seq![digit(n)]
    } else {
        decimal(n / 10).push(digit(n % 10))
    }
}

/// `n` written in decimal, with a leading `-` when it is negative.
pub open spec fn signed_decimal(n: int) -> Seq<char> {
    if n < 0 {
        seq!['-'] + decimal((-n) as nat)
    } else {
        decimal(n as nat)
    }
}

fn digit_char(d: u64) -> (c: char)
    requires
        d < 10,
    ensures
        c == digit(d as nat),
{
    if d == 0 {
        '0'
    } else if d == 1 {
        '1'
    } else if d == 2 {
        '2'
    } else if d == 3 {
        '3'
    } else if d == 4 {
        '4'
    } else if d == 5 {
        '5'
    } else if d == 6 {
        '6'
    } else if d == 7 {
        '7'
    } else if d == 8 {
        '8'
    } else {
        '9'
    }
}

/// Appends `n` written in decimal.
pub fn push_decimal(out: &mut String, n: u64)
    ensures
        final(out)@ == old(out)@ + decimal(n as nat),
    decreases n,
{
    if n >= 10 {
        push_decimal(out, n / 10);
    }
    push_char(out, digit_char(n % 10));
    assert(decimal(n as nat) == if n < 10 {
        seq![digit(n as nat)]
    } else {
        decimal((n / 10) as nat).push(digit((n % 10) as nat))
    });
}

/// Appends `n` written in decimal, with a leading `-` when it is negative.
pub fn push_signed(out: &mut String, n: i32)
    ensures
        final(out)@ == old(out)@ + signed_decimal(n as int),
{
    if n < 0 {
        push_char(out, '-');
        let m: u64 = (0i64 - n as i64) as u64;
        push_decimal(out, m);
    } else {
        push_decimal(out, n as u64);
    }
}

} // verus!
