use vstd::prelude::*;
use vstd::std_specs::iter::IteratorSpec;

verus! {

/// The characters of `s`, in order.
pub fn chars_of(s: &str) -> (r: Vec<char>)
    ensures
        r@ == s@,
{
    broadcast use vstd::string::axiom_spec_iter, vstd::string::next_postcondition;

    let mut it = s.chars();
    let mut out: Vec<char> = Vec::new();
    loop
        invariant
            it.obeys_prophetic_iter_laws(),
            out@ + it.remaining() == s@,
            it.decrease() is Some,
        decreases it.decrease()->0,
    {
        let ghost before = out@;
        match it.next() {
            Some(c) => {
                out.push(c);
                assert(out@ + it.remaining() =~= before + (seq![c] + it.remaining()));
            },
            None => {
                assert(out@ =~= s@);
                return out;
            },
        }
    }
}

/// Relies on `String: FromIterator<&char>`: the string made of these characters, in order.
#[verifier::external_body]
pub(crate) fn string_from_chars(cs: &Vec<char>) -> (r: String)
    ensures
        r@ == cs@,
{
    cs.iter().collect()
}

/// Relies on `char::from_u32`: a character exactly for the Unicode scalar values.
#[verifier::external_body]
pub(crate) fn char_from_code(n: u32) -> (r: Option<char>)
    ensures
        r is Some <==> (n <= 0x10FFFF && !(0xD800 <= n <= 0xDFFF)),
        r is Some ==> r->0 as int == n as int,
{
    char::from_u32(n)
}

/// The model of a list of lines.
pub open spec fn lines_view(v: Seq<Vec<char>>) -> Seq<Seq<char>> {
    v.map_values(|l: Vec<char>| l@)
}

pub open spec fn is_ascii_ws(c: char) -> bool {
    c == ' ' || c == '\t' || c == '\n' || c == '\x0C' || c == '\r'
}

pub open spec fn strip_cr(l: Seq<char>) -> Seq<char> {
    if l.len() > 0 && l.last() == '\r' {
        l.drop_last()
    } else {
        l
    }
}

/// Lines finished so far and the line in progress, after reading `s`.
pub open spec fn split_state(s: Seq<char>) -> (Seq<Seq<char>>, Seq<char>)
    decreases s.len(),
{
    if s.len() == 0 {
        (Seq::empty(), Seq::empty())
    } else {
        let (d, c) = split_state(s.drop_last());
        if s.last() == '\n' {
            (d.push(strip_cr(c)), Seq::empty())
        } else {
            (d, c.push(s.last()))
        }
    }
}

/// The lines of `s`: split at `\n`, a `\r` before it dropped, and no empty
/// line after a final line break.
pub open spec fn lines(s: Seq<char>) -> Seq<Seq<char>> {
    let (d, c) = split_state(s);
    if c.len() > 0 {
        d.push(c)
    } else {
        d
    }
}

/// Number of ASCII whitespace characters at the start of `l`.
pub open spec fn leading_ws(l: Seq<char>) -> nat
    decreases l.len(),
{
    if l.len() == 0 {
        0
    } else if is_ascii_ws(l[0]) {
        1 + leading_ws(l.drop_first())
    } else {
        0
    }
}

/// Least indentation among the lines of `ls`, which is not empty.
pub open spec fn min_leading_ws(ls: Seq<Seq<char>>) -> nat
    decreases ls.len(),
{
    if ls.len() <= 1 {
        if ls.len() == 1 {
            leading_ws(ls[0])
        } else {
            0
        }
    } else {
        let m = min_leading_ws(ls.drop_last());
        let w = leading_ws(ls.last());
        if w < m {
            w
        } else {
            m
        }
    }
}

/// Indentation to strip: the least one among all lines but the first.
pub open spec fn common_indent(ls: Seq<Seq<char>>) -> nat {
    if ls.len() <= 1 {
        0
    } else {
        min_leading_ws(ls.drop_first())
    }
}

pub open spec fn starts_with_break(s: Seq<char>) -> bool {
    (s.len() >= 1 && s[0] == '\n') || (s.len() >= 2 && s[0] == '\r' && s[1] == '\n')
}

/// The first `n` lines of `ls` joined again, each line after the first with
/// `k` characters removed (or emptied when not longer than `k`); no line
/// break before the second line when `skip_first_break` holds.
pub open spec fn join_dedented(ls: Seq<Seq<char>>, k: nat, skip_first_break: bool, n: int) -> Seq<char>
    decreases n,
{
    if n <= 0 {
        Seq::empty()
    } else {
        let i = n - 1;
        let prev = join_dedented(ls, k, skip_first_break, i);
        let sep: Seq<char> = if i > 1 || (i == 1 && !skip_first_break) {
            seq!['\n']
        } else {
            Seq::empty()
        };
        let body = if i == 0 {
            ls[0]
        } else if ls[i].len() > k {
            ls[i].subrange(k as int, ls[i].len() as int)
        } else {
            Seq::empty()
        };
        prev + sep + body
    }
}

/// A multi-line string with its common indentation removed. Text on the
/// first line is kept as it is, and a line break right at the start is dropped.
pub open spec fn dedent(s: Seq<char>) -> Seq<char> {
    let ls = lines(s);
    join_dedented(ls, common_indent(ls), starts_with_break(s), ls.len() as int)
}

/// Splits `s` into its lines.
pub fn split_lines(s: &Vec<char>) -> (r: Vec<Vec<char>>)
    ensures
        lines_view(r@) == lines(s@),
{
    let mut done: Vec<Vec<char>> = Vec::new();
    let mut cur: Vec<char> = Vec::new();
    let mut i: usize = 0;
    while i < s.len()
        invariant
            i <= s.len(),
            (lines_view(done@), cur@) == split_state(s@.subrange(0, i as int)),
        decreases s.len() - i,
    {
        assert(s@.subrange(0, i + 1).drop_last() =~= s@.subrange(0, i as int));
        let c = s[i];
        if c == '\n' {
            let ghost before = lines_view(done@);
            let ghost cv = cur@;
            if cur.len() > 0 && cur[cur.len() - 1] == '\r' {
                cur.pop();
                assert(cur@ =~= strip_cr(cv));
            }
            done.push(cur);
            cur = Vec::new();
            assert(lines_view(done@) =~= before.push(strip_cr(cv)));
            assert(cur@ =~= Seq::<char>::empty());
        } else {
            cur.push(c);
        }
        i = i + 1;
    }
    assert(s@.subrange(0, s.len() as int) =~= s@);
    if cur.len() > 0 {
        let ghost before = lines_view(done@);
        let ghost cv = cur@;
        done.push(cur);
        assert(lines_view(done@) =~= before.push(cv));
    }
    done
}

/// Number of ASCII whitespace characters at the start of `l`.
pub fn count_leading_ws(l: &Vec<char>) -> (r: usize)
    ensures
        r == leading_ws(l@),
{
    let mut i: usize = 0;
    assert(l@.subrange(0, l.len() as int) =~= l@);
    while i < l.len() && (l[i] == ' ' || l[i] == '\t' || l[i] == '\n' || l[i] == '\x0C' || l[i] == '\r')
        invariant
            i <= l.len(),
            leading_ws(l@) == i + leading_ws(l@.subrange(i as int, l.len() as int)),
        decreases l.len() - i,
    {
        assert(l@.subrange(i as int, l.len() as int).drop_first() =~= l@.subrange(i + 1, l.len() as int));
        i = i + 1;
    }
    if i < l.len() {
        assert(l@.subrange(i as int, l.len() as int)[0] == l@[i as int]);
    }
    i
}

/// Appends `src[from..]` to `out`.
fn push_from(out: &mut Vec<char>, src: &Vec<char>, from: usize)
    requires
        from <= src.len(),
    ensures
        final(out)@ == old(out)@ + src@.subrange(from as int, src.len() as int),
{
    let ghost start = out@;
    let mut i: usize = from;
    while i < src.len()
        invariant
            from <= i <= src.len(),
            out@ == start + src@.subrange(from as int, i as int),
        decreases src.len() - i,
    {
        out.push(src[i]);
        i = i + 1;
        assert(out@ =~= start + src@.subrange(from as int, i as int));
    }
}

/// Least indentation among all lines but the first.
fn common_indent_of(ls: &Vec<Vec<char>>) -> (r: usize)
    ensures
        r == common_indent(lines_view(ls@)),
{
    if ls.len() <= 1 {
        return 0;
    }
    let ghost v = lines_view(ls@);
    let mut m = count_leading_ws(&ls[1]);
    let mut j: usize = 2;
    assert(v.subrange(1, 2)[0] == ls[1]@);
    while j < ls.len()
        invariant
            2 <= j <= ls.len(),
            v == lines_view(ls@),
            m == min_leading_ws(v.subrange(1, j as int)),
        decreases ls.len() - j,
    {
        assert(v.subrange(1, j + 1).drop_last() =~= v.subrange(1, j as int));
        assert(v.subrange(1, j + 1).last() == ls[j as int]@);
        let w = count_leading_ws(&ls[j]);
        if w < m {
            m = w;
        }
        j = j + 1;
    }
    assert(v.subrange(1, ls.len() as int) =~= v.drop_first());
    m
}

/// Removes the common indentation of a multi-line string (see `dedent`).
pub fn dedent_chars(s: &Vec<char>) -> (r: Vec<char>)
    ensures
        r@ == dedent(s@),
{
    let ls = split_lines(s);
    let ghost lv = lines_view(ls@);
    let k = common_indent_of(&ls);
    let skip = (s.len() >= 1 && s[0] == '\n') || (s.len() >= 2 && s[0] == '\r' && s[1] == '\n');
    let mut out: Vec<char> = Vec::new();
    let mut i: usize = 0;
    while i < ls.len()
        invariant
            i <= ls.len(),
            lv == lines_view(ls@),
            lv == lines(s@),
            k == common_indent(lv),
            skip == starts_with_break(s@),
            out@ == join_dedented(lv, k as nat, skip, i as int),
        decreases ls.len() - i,
    {
        let ghost before = out@;
        if i > 1 || (i == 1 && !skip) {
            out.push('\n');
        }
        let ghost mid = out@;
        assert(lv[i as int] == ls[i as int]@);
        if i == 0 {
            push_from(&mut out, &ls[0], 0);
            assert(ls[0]@.subrange(0, ls[0]@.len() as int) =~= ls[0]@);
        } else if ls[i].len() > k {
            push_from(&mut out, &ls[i], k);
        }
        proof {
            let sep: Seq<char> = if i > 1 || (i == 1 && !skip) { seq!['\n'] } else { Seq::empty() };
            assert(mid =~= before + sep);
        }
        i = i + 1;
        assert(out@ =~= join_dedented(lv, k as nat, skip, i as int));
    }
    out
}

/// Takes a multi-line string and removes the largest indentation common to
/// its lines after the first, keeping the text on the first line as it is.
pub fn trim_multiline_string(string: &str) -> (r: String)
    ensures
        r@ == dedent(string@),
{
    let cs = chars_of(string);
    let d = dedent_chars(&cs);
    string_from_chars(&d)
}

/// Value of a hexadecimal digit, or -1 for any other character.
pub open spec fn hex_digit_value(c: char) -> int {
    if '0' <= c <= '9' {
        c as int - '0' as int
    } else if 'a' <= c <= 'f' {
        c as int - 'a' as int + 10
    } else if 'A' <= c <= 'F' {
        c as int - 'A' as int + 10
    } else {
        -1
    }
}

pub open spec fn is_hex4(h: Seq<char>) -> bool {
    h.len() == 4 && forall|i: int| 0 <= i < 4 ==> hex_digit_value(#[trigger] h[i]) >= 0
}

pub open spec fn hex4_value(h: Seq<char>) -> int {
    hex_digit_value(h[0]) * 4096 + hex_digit_value(h[1]) * 256 + hex_digit_value(h[2]) * 16
        + hex_digit_value(h[3])
}

pub open spec fn is_scalar_value(n: int) -> bool {
    0 <= n <= 0x10FFFF && !(0xD800 <= n <= 0xDFFF)
}

pub open spec fn code_point(c: char) -> int {
    c as int
}

/// The character whose code point is `n`.
pub open spec fn char_with_code(n: int) -> char {
    choose|c: char| #[trigger] code_point(c) == n
}

/// The character that the raw text of one string character stands for: the
/// character itself, or the escape `\n`, `\r`, `\t`, `\"`, `\$`, `\\`, or
/// `\u` with four hex digits (U+FFFD where they name no Unicode scalar value).
pub open spec fn decode_char(raw: Seq<char>) -> char {
    if raw.len() == 0 {
        '\u{FFFD}'
    } else if raw[0] != '\\' || raw.len() == 1 {
        raw[0]
    } else if raw[1] == 'u' {
        let h = raw.subrange(2, raw.len() as int);
        if is_hex4(h) && is_scalar_value(hex4_value(h)) {
            char_with_code(hex4_value(h))
        } else {
            '\u{FFFD}'
        }
    } else if raw[1] == 'n' {
        '\n'
    } else if raw[1] == 'r' {
        '\r'
    } else if raw[1] == 't' {
        '\t'
    } else {
        raw[1]
    }
}

fn hex_digit(c: char) -> (r: Option<u32>)
    ensures
        match r {
            Some(d) => hex_digit_value(c) == d as int && d < 16,
            None => hex_digit_value(c) == -1,
        },
{
    if '0' <= c && c <= '9' {
        Some(c as u32 - '0' as u32)
    } else if 'a' <= c && c <= 'f' {
        Some(c as u32 - 'a' as u32 + 10)
    } else if 'A' <= c && c <= 'F' {
        Some(c as u32 - 'A' as u32 + 10)
    } else {
        None
    }
}

/// Decodes the raw text of one string character (see `decode_char`).
pub fn parse_char(raw: &Vec<char>) -> (r: char)
    ensures
        r == decode_char(raw@),
{
    if raw.len() == 0 {
        return '\u{FFFD}';
    }
    let first = raw[0];
    if first != '\\' || raw.len() == 1 {
        return first;
    }
    let second = raw[1];
    if second == 'u' {
        let ghost h = raw@.subrange(2, raw.len() as int);
        if raw.len() != 6 {
            return '\u{FFFD}';
        }
        let mut n: u32 = 0;
        let mut i: usize = 2;
        while i < 6
            invariant
                2 <= i <= 6,
                raw.len() == 6,
                raw@[0] == '\\',
                raw@[1] == 'u',
                h == raw@.subrange(2, 6),
                forall|j: int| 0 <= j < i - 2 ==> hex_digit_value(#[trigger] h[j]) >= 0,
                n < 0x10000,
                n as int == (if i == 2 {
                    0
                } else if i == 3 {
                    hex_digit_value(h[0])
                } else if i == 4 {
                    hex_digit_value(h[0]) * 16 + hex_digit_value(h[1])
                } else if i == 5 {
                    hex_digit_value(h[0]) * 256 + hex_digit_value(h[1]) * 16 + hex_digit_value(h[2])
                } else {
                    hex4_value(h)
                }),
                n < (if i == 2 { 1int } else if i == 3 { 16 } else if i == 4 { 256 } else if i == 5 { 4096 } else { 65536 }),
            decreases 6 - i,
        {
            match hex_digit(raw[i]) {
                Some(d) => {
                    assert(h[i - 2] == raw@[i as int]);
                    n = n * 16 + d;
                },
                None => {
                    assert(h[i - 2] == raw@[i as int]);
                    assert(!is_hex4(h));
                    return '\u{FFFD}';
                },
            }
            i = i + 1;
        }
        assert(is_hex4(h));
        match char_from_code(n) {
            Some(c) => {
                assert(n as int == hex4_value(h));
                assert(code_point(c) == hex4_value(h));
                assert(code_point(char_with_code(hex4_value(h))) == hex4_value(h));
                return c;
            },
            None => {
                return '\u{FFFD}';
            },
        }
    }
    if second == 'n' {
        '\n'
    } else if second == 'r' {
        '\r'
    } else if second == 't' {
        '\t'
    } else {
        second
    }
}

} // verus!
