//! The IPv4 presentation format, as the C library's `inet_pton` and `inet_ntop`
//! read and write it for `AF_INET`: four decimal numbers from 0 to 255, without
//! leading zeros, separated by dots.
use vstd::prelude::*;
use vstd::string::*;

verus! {

/// The character of the decimal digit `d`.
pub open spec fn digit_char(d: int) -> char {
    (d + 48) as char
}

pub open spec fn is_digit(c: char) -> bool {
    48 <= c as int <= 57
}

pub open spec fn digit_value(c: char) -> int {
    c as int - 48
}

/// The decimal numeral of `n` without leading zeros, as `printf("%u")` writes it.
pub open spec fn decimal(n: nat) -> Seq<char>
    decreases n,
{
    if n < 10 {
        seq![digit_char(n as int)]
    } else {
        decimal(n / 10).push(digit_char((n % 10) as int))
    }
}

/// The value of a sequence of decimal digits.
pub open spec fn numeral_value(d: Seq<char>) -> int
    decreases d.len(),
{
    if d.len() == 0 {
        0
    } else {
        numeral_value(d.drop_last()) * 10 + digit_value(d.last())
    }
}

/// The dotted-decimal text of the IPv4 address whose four bytes, in network
/// order, are `b`.
pub open spec fn dotted_quad(b: Seq<u8>) -> Seq<char> {
    decimal(b[0] as nat) + seq!['.'] + decimal(b[1] as nat) + seq!['.'] + decimal(b[2] as nat)
        + seq!['.'] + decimal(b[3] as nat)
}

/// `t` is the dotted-decimal text of some IPv4 address.
pub open spec fn is_dotted_quad(t: Seq<char>) -> bool {
    exists|b: Seq<u8>| b.len() == 4 && #[trigger] dotted_quad(b) == t
}

/// The four bytes, in network order, of the address whose text `t` is, if `t`
/// is any address's text.
pub open spec fn address_of_text(t: Seq<char>) -> Option<Seq<u8>> {
    if is_dotted_quad(t) {
        Some(choose|b: Seq<u8>| b.len() == 4 && #[trigger] dotted_quad(b) == t)
    } else {
        None
    }
}

/// What a C function reads of the text `s`: the characters before the first NUL.
pub open spec fn c_text(s: Seq<char>) -> Seq<char>
    decreases s.len(),
{
    if s.len() == 0 {
        s
    } else if s[0] == '\0' {
        Seq::empty()
    } else {
        seq![s[0]] + c_text(s.drop_first())
    }
}

/// Where the `k`-th number starts in `dotted_quad(b)`.
pub open spec fn quad_start(b: Seq<u8>, k: int) -> int
    decreases k,
{
    if k <= 0 {
        0
    } else {
        quad_start(b, k - 1) + decimal(b[k - 1] as nat).len() + 1
    }
}

/// The decimal numeral of `v` stands in `t` from `pos`, before `end`, and no
/// digit follows it there.
pub open spec fn numeral_at(t: Seq<char>, end: int, pos: int, v: u8) -> bool {
    let d = decimal(v as nat);
    &&& 0 <= pos
    &&& pos + d.len() <= end <= t.len()
    &&& t.subrange(pos, pos + d.len()) == d
    &&& (pos + d.len() == end || !is_digit(t[pos + d.len()]))
}

proof fn lemma_digit(d: int)
    requires
        0 <= d < 10,
    ensures
        is_digit(digit_char(d)),
        digit_value(digit_char(d)) == d,
        digit_char(d) != '.',
        digit_char(d) != '\0',
{
}

/// Facts about the decimal numeral of `n`.
pub proof fn lemma_decimal(n: nat)
    ensures
        decimal(n).len() >= 1,
        forall|k: int| 0 <= k < decimal(n).len() ==> is_digit(#[trigger] decimal(n)[k]),
        numeral_value(decimal(n)) == n,
        n < 10 ==> decimal(n).len() == 1,
        n < 100 ==> decimal(n).len() <= 2,
        n < 1000 ==> decimal(n).len() <= 3,
    decreases n,
{
    if n < 10 {
        lemma_digit(n as int);
        let d = decimal(n);
        assert(d.drop_last() =~= Seq::<char>::empty());
        assert(numeral_value(d.drop_last()) == 0);
        assert(d.last() == digit_char(n as int));
    } else {
        lemma_decimal(n / 10);
        lemma_digit((n % 10) as int);
        let d = decimal(n);
        assert(d.drop_last() =~= decimal(n / 10));
        assert(numeral_value(d) == (n / 10) * 10 + n % 10);
        assert((n / 10) * 10 + n % 10 == n) by (nonlinear_arith);
    }
}

/// The `k`-th number of `dotted_quad(b)` stands at `quad_start(b, k)`, with a dot
/// after each of the first three.
proof fn lemma_quad_layout(b: Seq<u8>)
    requires
        b.len() == 4,
    ensures
        forall|k: int|
            0 <= k < 4 ==> #[trigger] dotted_quad(b).subrange(
                quad_start(b, k),
                quad_start(b, k) + decimal(b[k] as nat).len(),
            ) == decimal(b[k] as nat),
        forall|k: int|
            0 <= k < 3 ==> #[trigger] dotted_quad(b)[quad_start(b, k) + decimal(b[k] as nat).len()]
                == '.',
        dotted_quad(b).len() == quad_start(b, 3) + decimal(b[3] as nat).len(),
        forall|k: int| 0 <= k < 4 ==> 0 <= #[trigger] quad_start(b, k),
        forall|k: int|
            0 <= k < 3 ==> #[trigger] quad_start(b, k) + decimal(b[k] as nat).len()
                < dotted_quad(b).len(),
{
    let d0 = decimal(b[0] as nat);
    let d1 = decimal(b[1] as nat);
    let d2 = decimal(b[2] as nat);
    let d3 = decimal(b[3] as nat);
    let dot = seq!['.'];
    let q = dotted_quad(b);
    let s0 = quad_start(b, 0);
    let s1 = quad_start(b, 1);
    let s2 = quad_start(b, 2);
    let s3 = quad_start(b, 3);
    assert(s0 == 0);
    assert(s1 == d0.len() + 1);
    assert(s2 == s1 + d1.len() + 1);
    assert(s3 == s2 + d2.len() + 1);
    assert(q == d0 + dot + d1 + dot + d2 + dot + d3);
    assert(q.subrange(s0, s0 + d0.len()) =~= d0);
    assert(q.subrange(s1, s1 + d1.len()) =~= d1);
    assert(q.subrange(s2, s2 + d2.len()) =~= d2);
    assert(q.subrange(s3, s3 + d3.len()) =~= d3);
    assert(q[s0 + d0.len()] == '.');
    assert(q[s1 + d1.len()] == '.');
    assert(q[s2 + d2.len()] == '.');
    assert forall|k: int| 0 <= k < 4 implies #[trigger] q.subrange(
        quad_start(b, k),
        quad_start(b, k) + decimal(b[k] as nat).len(),
    ) == decimal(b[k] as nat) by {
        if k == 0 {
        } else if k == 1 {
        } else if k == 2 {
        } else {
        }
    }
    assert forall|k: int| 0 <= k < 3 implies #[trigger] q[quad_start(b, k) + decimal(
        b[k] as nat,
    ).len()] == '.' by {
        if k == 0 {
        } else if k == 1 {
        } else {
        }
    }
    assert forall|k: int| 0 <= k < 4 implies 0 <= #[trigger] quad_start(b, k) by {
        if k == 0 {
        } else if k == 1 {
        } else if k == 2 {
        } else {
        }
    }
    assert forall|k: int| 0 <= k < 3 implies #[trigger] quad_start(b, k) + decimal(
        b[k] as nat,
    ).len() < q.len() by {
        if k == 0 {
        } else if k == 1 {
        } else {
        }
    }
}


/// Every number of `dotted_quad(b)` stands where `quad_start` says, followed by
/// no digit.
proof fn lemma_quad_numerals(b: Seq<u8>)
    requires
        b.len() == 4,
    ensures
        forall|k: int|
            0 <= k < 4 ==> numeral_at(
                dotted_quad(b),
                dotted_quad(b).len() as int,
                #[trigger] quad_start(b, k),
                b[k],
            ),
{
    lemma_quad_layout(b);
    lemma_digit(0);
    assert forall|k: int| 0 <= k < 4 implies numeral_at(
        dotted_quad(b),
        dotted_quad(b).len() as int,
        #[trigger] quad_start(b, k),
        b[k],
    ) by {
        let q = dotted_quad(b);
        let l = decimal(b[k] as nat).len();
        lemma_decimal(b[k] as nat);
        if k < 3 {
            assert(q[quad_start(b, k) + l] == '.');
            lemma_decimal(b[k + 1] as nat);
            assert(quad_start(b, k + 1) == quad_start(b, k) + l + 1);
            if k == 0 {
                assert(quad_start(b, 3) >= quad_start(b, 1));
            } else if k == 1 {
                assert(quad_start(b, 3) >= quad_start(b, 2));
            }
        }
    }
}

/// At one place of a text at most one number stands.
proof fn lemma_numeral_at_unique(t: Seq<char>, end: int, pos: int, v: u8, w: u8)
    requires
        numeral_at(t, end, pos, v),
        numeral_at(t, end, pos, w),
    ensures
        v == w,
{
    let dv = decimal(v as nat);
    let dw = decimal(w as nat);
    lemma_decimal(v as nat);
    lemma_decimal(w as nat);
    if dv.len() < dw.len() {
        assert(t.subrange(pos, pos + dw.len())[dv.len() as int] == dw[dv.len() as int]);
        assert(false);
    } else if dw.len() < dv.len() {
        assert(t.subrange(pos, pos + dv.len())[dw.len() as int] == dv[dw.len() as int]);
        assert(false);
    }
    assert(dv == dw);
}

/// Where two addresses with the same text have their `k`-th numbers at the same
/// place, those numbers are equal.
proof fn lemma_same_number(a: Seq<u8>, b: Seq<u8>, k: int)
    requires
        a.len() == 4,
        b.len() == 4,
        dotted_quad(a) == dotted_quad(b),
        0 <= k < 4,
        quad_start(a, k) == quad_start(b, k),
    ensures
        a[k] == b[k],
{
    let q = dotted_quad(a);
    lemma_quad_numerals(a);
    lemma_quad_numerals(b);
    assert(numeral_at(q, q.len() as int, quad_start(a, k), a[k]));
    assert(numeral_at(q, q.len() as int, quad_start(b, k), b[k]));
    lemma_numeral_at_unique(q, q.len() as int, quad_start(a, k), a[k], b[k]);
}

/// Different addresses have different texts.
pub proof fn lemma_dotted_quad_injective(a: Seq<u8>, b: Seq<u8>)
    requires
        a.len() == 4,
        b.len() == 4,
        dotted_quad(a) == dotted_quad(b),
    ensures
        a == b,
{
    assert(quad_start(a, 0) == quad_start(b, 0));
    lemma_same_number(a, b, 0);
    assert(quad_start(a, 1) == quad_start(b, 1));
    lemma_same_number(a, b, 1);
    assert(quad_start(a, 2) == quad_start(b, 2));
    lemma_same_number(a, b, 2);
    assert(quad_start(a, 3) == quad_start(b, 3));
    lemma_same_number(a, b, 3);
    assert(a =~= b);
}


/// The address whose text is `dotted_quad(b)` is `b`.
pub proof fn lemma_address_of_text(b: Seq<u8>)
    requires
        b.len() == 4,
    ensures
        address_of_text(dotted_quad(b)) == Some(b),
{
    let t = dotted_quad(b);
    assert(is_dotted_quad(t));
    let a = choose|a: Seq<u8>| a.len() == 4 && #[trigger] dotted_quad(a) == t;
    lemma_dotted_quad_injective(a, b);
}

/// A C function reads all of an address's text: it holds no NUL.
pub proof fn lemma_dotted_quad_c_text(b: Seq<u8>)
    requires
        b.len() == 4,
    ensures
        c_text(dotted_quad(b)) == dotted_quad(b),
{
    let q = dotted_quad(b);
    lemma_decimal(b[0] as nat);
    lemma_decimal(b[1] as nat);
    lemma_decimal(b[2] as nat);
    lemma_decimal(b[3] as nat);
    assert forall|k: int| 0 <= k < q.len() implies q[k] != '\0' by {
        let d0 = decimal(b[0] as nat);
        let d1 = decimal(b[1] as nat);
        let d2 = decimal(b[2] as nat);
        let d3 = decimal(b[3] as nat);
        let dot = seq!['.'];
        assert(q == d0 + dot + d1 + dot + d2 + dot + d3);
        if k < d0.len() {
            assert(is_digit(d0[k]));
        } else if k < d0.len() + 1 {
        } else if k < d0.len() + 1 + d1.len() {
            assert(is_digit(d1[k - d0.len() - 1]));
        } else if k < d0.len() + d1.len() + 2 {
        } else if k < d0.len() + d1.len() + 2 + d2.len() {
            assert(is_digit(d2[k - d0.len() - d1.len() - 2]));
        } else if k < d0.len() + d1.len() + d2.len() + 3 {
        } else {
            assert(is_digit(d3[k - d0.len() - d1.len() - d2.len() - 3]));
        }
    }
    lemma_c_text(q, q.len() as int);
    assert(q.take(q.len() as int) =~= q);
}

/// A text that names an address is that address's text.
pub proof fn lemma_text_of_address(t: Seq<char>)
    requires
        address_of_text(t) is Some,
    ensures
        address_of_text(t)->0.len() == 4,
        dotted_quad(address_of_text(t)->0) == t,
{
}

proof fn lemma_c_text(s: Seq<char>, i: int)
    requires
        0 <= i <= s.len(),
        forall|k: int| 0 <= k < i ==> s[k] != '\0',
        i == s.len() || s[i] == '\0',
    ensures
        c_text(s) == s.take(i),
    decreases s.len(),
{
    if s.len() == 0 {
        assert(s.take(i) =~= s);
    } else if i == 0 {
        assert(s.take(i) =~= Seq::<char>::empty());
    } else {
        assert(s.drop_first()[i - 1] == s[i] || i == s.len());
        lemma_c_text(s.drop_first(), i - 1);
        assert(seq![s[0]] + s.drop_first().take(i - 1) =~= s.take(i));
    }
}

/// Appends `c` to `s` (`String::push`).
#[verifier::external_body]
pub(crate) fn push_char(s: &mut String, c: char)
    ensures
        final(s)@ == old(s)@.push(c),
{
    s.push(c);
}

/// The characters of `s`, one by one.
fn chars_of(s: &str) -> (v: Vec<char>)
    ensures
        v@ == s@,
{
    let n = s.unicode_len();
    let mut v: Vec<char> = Vec::new();
    let mut i: usize = 0;
    while i < n
        invariant
            n == s@.len(),
            i <= n,
            v@ == s@.take(i as int),
        decreases n - i,
    {
        v.push(s.get_char(i));
        i = i + 1;
        assert(v@ =~= s@.take(i as int));
    }
    assert(v@ =~= s@);
    v
}

/// The text that `v` holds.
fn string_of(v: &Vec<char>) -> (s: String)
    ensures
        s@ == v@,
{
    let mut s = String::new();
    let mut i: usize = 0;
    while i < v.len()
        invariant
            i <= v.len(),
            s@ == v@.take(i as int),
        decreases v.len() - i,
    {
        push_char(&mut s, v[i]);
        i = i + 1;
        assert(s@ =~= v@.take(i as int));
    }
    assert(v@.take(v.len() as int) =~= v@);
    s
}

/// How many characters of `v` a C function reads: those before the first NUL.
fn c_len(v: &Vec<char>) -> (n: usize)
    ensures
        n <= v.len(),
        v@.take(n as int) == c_text(v@),
{
    let mut i: usize = 0;
    while i < v.len() && v[i] != '\0'
        invariant
            i <= v.len(),
            forall|k: int| 0 <= k < i ==> v@[k] != '\0',
        decreases v.len() - i,
    {
        i = i + 1;
    }
    proof {
        lemma_c_text(v@, i as int);
    }
    i
}

fn digit_of(d: u8) -> (c: char)
    requires
        d < 10,
    ensures
        c == digit_char(d as int),
{
    (d + 48) as char
}

/// Appends the decimal numeral of `n` to `v`.
fn push_decimal(v: &mut Vec<char>, n: u8)
    ensures
        final(v)@ == old(v)@ + decimal(n as nat),
{
    proof {
        reveal_with_fuel(decimal, 3);
    }
    if n >= 100 {
        assert(decimal(n as nat) =~= seq![
            digit_char((n / 100) as int),
            digit_char(((n / 10) % 10) as int),
            digit_char((n % 10) as int),
        ]);
        v.push(digit_of(n / 100));
        v.push(digit_of((n / 10) % 10));
        v.push(digit_of(n % 10));
    } else if n >= 10 {
        assert(decimal(n as nat) =~= seq![digit_char((n / 10) as int), digit_char((n % 10) as int)]);
        v.push(digit_of(n / 10));
        v.push(digit_of(n % 10));
    } else {
        v.push(digit_of(n));
    }
    assert(v@ =~= old(v)@ + decimal(n as nat));
}

/// The dotted-decimal text of the address `b`.
fn dotted_quad_chars(b: &[u8; 4]) -> (v: Vec<char>)
    ensures
        v@ == dotted_quad(b@),
{
    let mut v: Vec<char> = Vec::new();
    push_decimal(&mut v, b[0]);
    v.push('.');
    push_decimal(&mut v, b[1]);
    v.push('.');
    push_decimal(&mut v, b[2]);
    v.push('.');
    push_decimal(&mut v, b[3]);
    assert(v@ =~= dotted_quad(b@));
    v
}


fn char_is_digit(c: char) -> (r: bool)
    ensures
        r == is_digit(c),
{
    '0' <= c && c <= '9'
}

/// Reads the run of at most four digits of `t` that starts at `pos` and ends
/// before `end`; gives its value and where it ends, unless it is empty, longer
/// than three digits or above 255. Wherever a number of `u8` stands at `pos`,
/// followed by no digit, that number is what comes back.
fn parse_field(t: &Vec<char>, end: usize, pos: usize) -> (r: Option<(u8, usize)>)
    requires
        pos <= end <= t.len(),
    ensures
        r matches Some((v, e)) ==> pos < e <= end,
        forall|v: u8|
            #[trigger] numeral_at(t@, end as int, pos as int, v) ==> r == Some(
                (v, (pos + decimal(v as nat).len()) as usize),
            ),
{
    let mut i: usize = pos;
    let mut val: u32 = 0;
    while i < end && char_is_digit(t[i]) && i - pos < 4
        invariant
            pos <= i <= end,
            end <= t.len(),
            i - pos <= 4,
            val == numeral_value(t@.subrange(pos as int, i as int)),
            val < 10000,
            i - pos <= 3 ==> val < 1000,
            i - pos <= 2 ==> val < 100,
            i - pos <= 1 ==> val < 10,
            i - pos == 0 ==> val == 0,
            forall|v: u8|
                #[trigger] numeral_at(t@, end as int, pos as int, v) ==> i <= pos + decimal(
                    v as nat,
                ).len() && t@.subrange(pos as int, i as int) == decimal(v as nat).subrange(
                    0,
                    i - pos,
                ),
        decreases end - i,
    {
        let c = t[i];
        let d: u32 = (c as u32) - 48;
        proof {
            let old_run = t@.subrange(pos as int, i as int);
            let run = t@.subrange(pos as int, i + 1);
            assert(run.drop_last() =~= old_run);
            assert(run.last() == c);
            assert forall|v: u8| #[trigger] numeral_at(t@, end as int, pos as int, v) implies i
                + 1 <= pos + decimal(v as nat).len() && run == decimal(v as nat).subrange(
                0,
                i + 1 - pos,
            ) by {
                let dv = decimal(v as nat);
                lemma_decimal(v as nat);
                if i == pos + dv.len() {
                    assert(false);
                }
                assert(t@.subrange(pos as int, pos + dv.len())[i - pos] == dv[i - pos]);
                assert(run =~= dv.subrange(0, i + 1 - pos));
            }
        }
        val = val * 10 + d;
        i = i + 1;
    }
    proof {
        assert forall|v: u8| #[trigger] numeral_at(t@, end as int, pos as int, v) implies i == pos
            + decimal(v as nat).len() && val == v && 1 <= decimal(v as nat).len() <= 3 by {
            let dv = decimal(v as nat);
            lemma_decimal(v as nat);
            if i < pos + dv.len() {
                assert(t@.subrange(pos as int, pos + dv.len())[i - pos] == dv[i - pos]);
                assert(is_digit(t@[i as int]));
                assert(false);
            }
            assert(t@.subrange(pos as int, i as int) =~= dv);
        }
    }
    if i == pos || i - pos > 3 || val > 255 {
        None
    } else {
        Some((val as u8, i))
    }
}

/// `t` holds `n` characters from `pos` on, and they are `f`.
fn holds_at(t: &Vec<char>, n: usize, f: &Vec<char>) -> (r: bool)
    requires
        n <= t.len(),
    ensures
        r == (f@ == t@.take(n as int)),
{
    if f.len() != n {
        return false;
    }
    let mut i: usize = 0;
    while i < n
        invariant
            i <= n,
            n <= t.len(),
            f.len() == n,
            forall|k: int| 0 <= k < i ==> f@[k] == t@[k],
        decreases n - i,
    {
        if f[i] != t[i] {
            assert(f@[i as int] != t@.take(n as int)[i as int]);
            return false;
        }
        i = i + 1;
    }
    assert(f@ =~= t@.take(n as int));
    true
}

/// Reads the IPv4 address that `src` gives in dotted-decimal text, as
/// `inet_pton(AF_INET, ..)` does: of `src` it reads what stands before the first
/// NUL, and it gives the four bytes, in network order, of the one address whose
/// text that is, or `None` when it is no address's text.
pub fn inet_pton(src: &str) -> (r: Option<[u8; 4]>)
    ensures
        match r {
            Some(b) => dotted_quad(b@) == c_text(src@),
            None => !is_dotted_quad(c_text(src@)),
        },
{
    let t = chars_of(src);
    let end = c_len(&t);
    let ghost c = t@.take(end as int);
    let mut b: Vec<u8> = Vec::new();
    let mut pos: usize = 0;
    while b.len() < 4
        invariant
            end <= t.len(),
            c == t@.take(end as int),
            c == c_text(src@),
            b.len() <= 4,
            pos <= end,
            forall|q: Seq<u8>|
                q.len() == 4 && #[trigger] dotted_quad(q) == c ==> (b.len() < 4 ==> pos == quad_start(
                    q,
                    b.len() as int,
                )) && b@ == q.take(b.len() as int),
        decreases 4 - b.len(),
    {
        let ghost k = b.len() as int;
        proof {
            assert forall|q: Seq<u8>| q.len() == 4 && #[trigger] dotted_quad(q) == c implies numeral_at(
                t@,
                end as int,
                pos as int,
                q[k],
            ) by {
                lemma_quad_numerals(q);
                lemma_quad_layout(q);
                assert(numeral_at(c, c.len() as int, quad_start(q, k), q[k]));
                let l = decimal(q[k] as nat).len();
                assert(t@.subrange(pos as int, pos + l) =~= c.subrange(pos as int, pos + l));
                if pos + l < end {
                    assert(t@[pos + l] == c[pos + l]);
                }
            }
        }
        match parse_field(&t, end, pos) {
            None => {
                return None;
            },
            Some((v, e)) => {
                let last = b.len() == 3;
                if last {
                    if e != end {
                        proof {
                            assert forall|q: Seq<u8>| q.len() == 4 implies #[trigger] dotted_quad(q)
                                != c by {
                                if dotted_quad(q) == c {
                                    lemma_quad_layout(q);
                                }
                            }
                        }
                        return None;
                    }
                } else {
                    if e >= end || t[e] != '.' {
                        proof {
                            assert forall|q: Seq<u8>| q.len() == 4 implies #[trigger] dotted_quad(q)
                                != c by {
                                if dotted_quad(q) == c {
                                    lemma_quad_layout(q);
                                    let e2 = quad_start(q, k) + decimal(q[k] as nat).len();
                                    assert(e2 < c.len());
                                    assert(c[e2] == '.');
                                    assert(t@[e2] == c[e2]);
                                }
                            }
                        }
                        return None;
                    }
                }
                b.push(v);
                pos = if last {
                    e
                } else {
                    e + 1
                };
                proof {
                    assert forall|q: Seq<u8>| q.len() == 4 && #[trigger] dotted_quad(q) == c implies (
                    b.len() < 4 ==> pos == quad_start(q, b.len() as int)) && b@ == q.take(
                        b.len() as int,
                    ) by {
                        assert(b@ =~= q.take(b.len() as int));
                    }
                }
            },
        }
    }
    let a: [u8; 4] = [b[0], b[1], b[2], b[3]];
    assert(a@ =~= b@);
    let f = dotted_quad_chars(&a);
    if holds_at(&t, end, &f) {
        Some(a)
    } else {
        proof {
            assert forall|q: Seq<u8>| q.len() == 4 implies #[trigger] dotted_quad(q) != c by {
                if dotted_quad(q) == c {
                    assert(q.take(4) =~= q);
                }
            }
        }
        None
    }
}

/// Writes the IPv4 address whose four bytes, in network order, are `src` as
/// dotted-decimal text, as `inet_ntop(AF_INET, ..)` does into a buffer of `size`
/// bytes: `None` when the text and its closing NUL do not fit.
pub fn inet_ntop(src: &[u8; 4], size: usize) -> (r: Option<String>)
    ensures
        match r {
            Some(s) => dotted_quad(src@).len() < size && s@ == dotted_quad(src@),
            None => dotted_quad(src@).len() >= size,
        },
{
    let v = dotted_quad_chars(src);
    if v.len() < size {
        Some(string_of(&v))
    } else {
        None
    }
}

} // verus!
