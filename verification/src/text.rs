use vstd::prelude::*;
use vstd::string::StringSliceAdditionalSpecFns;

verus! {

broadcast use vstd::string::group_string_axioms;

/// Appends one character (`String::push`).
#[verifier::external_body]
pub fn string_push(s: &mut String, c: char)
    ensures
        final(s)@ == old(s)@.push(c),
{
    s.push(c);
}

/// The characters of `s`, in order.
pub fn chars_of(s: &str) -> (v: Vec<char>)
    ensures
        v@ == s@,
{
    let mut v: Vec<char> = Vec::new();
    let n = s.unicode_len();
    let mut i: usize = 0;
    while i < n
        invariant
            n == s@.len(),
            i <= n,
            v@ == s@.subrange(0, i as int),
        decreases n - i,
    {
        let c = s.get_char(i);
        v.push(c);
        i = i + 1;
        assert(v@ =~= s@.subrange(0, i as int));
    }
    assert(v@ =~= s@);
    v
}

/// The string made of `cs`.
pub fn string_of(cs: &[char]) -> (s: String)
    ensures
        s@ == cs@,
{
    let mut s = String::new();
    let mut i: usize = 0;
    while i < cs.len()
        invariant
            i <= cs@.len(),
            s@ == cs@.subrange(0, i as int),
        decreases cs@.len() - i,
    {
        string_push(&mut s, cs[i]);
        i = i + 1;
        assert(s@ =~= cs@.subrange(0, i as int));
    }
    assert(s@ =~= cs@);
    s
}

/// Whether two strings hold the same characters.
pub fn str_eq(a: &str, b: &str) -> (res: bool)
    ensures
        res == (a@ == b@),
{
    let x = chars_of(a);
    let y = chars_of(b);
    if x.len() != y.len() {
        return false;
    }
    let mut i: usize = 0;
    while i < x.len()
        invariant
            x@ == a@,
            y@ == b@,
            x@.len() == y@.len(),
            i <= x@.len(),
            forall|j: int| 0 <= j < i ==> x@[j] == y@[j],
        decreases x@.len() - i,
    {
        if x[i] != y[i] {
            return false;
        }
        i = i + 1;
    }
    assert(x@ =~= y@);
    true
}

/// The decimal digit for `d < 10`.
pub open spec fn digit_char(d: nat) -> char {
    if d == 0 { '0' }
    else if d == 1 { '1' }
    else if d == 2 { '2' }
    else if d == 3 { '3' }
    else if d == 4 { '4' }
    else if d == 5 { '5' }
    else if d == 6 { '6' }
    else if d == 7 { '7' }
    else if d == 8 { '8' }
    else { '9' }
}

/// Decimal notation of `n`, without sign or leading zeros.
pub open spec fn decimal(n: nat) -> Seq<char>
    decreases n,
{
    if n < 10 {
        seq![digit_char(n)]
    } else {
        decimal(n / 10).push(digit_char(n % 10))
    }
}

proof fn lemma_digit_char_code(d: nat)
    requires
        d < 10,
    ensures
        digit_char(d) as u32 == d + 48,
{
}

/// Different numbers are written differently.
pub proof fn lemma_decimal_injective(a: nat, b: nat)
    requires
        decimal(a) == decimal(b),
    ensures
        a == b,
    decreases a,
{
    lemma_decimal_nonempty(a / 10);
    lemma_decimal_nonempty(b / 10);
    if a < 10 && b < 10 {
        assert(decimal(a)[0] == digit_char(a));
        assert(decimal(b)[0] == digit_char(b));
        lemma_digit_char_code(a);
        lemma_digit_char_code(b);
    } else if a >= 10 && b >= 10 {
        assert(decimal(a).last() == digit_char(a % 10));
        assert(decimal(b).last() == digit_char(b % 10));
        assert(decimal(a).drop_last() =~= decimal(a / 10));
        assert(decimal(b).drop_last() =~= decimal(b / 10));
        lemma_decimal_injective(a / 10, b / 10);
        lemma_digit_char_code(a % 10);
        lemma_digit_char_code(b % 10);
        assert(a % 10 == b % 10);
    } else if a < 10 {
        assert(decimal(a).len() == 1);
        assert(decimal(b) == decimal(b / 10).push(digit_char(b % 10)));
        assert(decimal(b).len() >= 2);
    } else {
        assert(decimal(b).len() == 1);
        assert(decimal(a) == decimal(a / 10).push(digit_char(a % 10)));
        assert(decimal(a).len() >= 2);
    }
}

proof fn lemma_decimal_nonempty(n: nat)
    ensures
        decimal(n).len() >= 1,
    decreases n,
{
    if n >= 10 {
        lemma_decimal_nonempty(n / 10);
    }
}

fn digit(d: u64) -> (c: char)
    requires
        d < 10,
    ensures
        c == digit_char(d as nat),
{
    if d == 0 { '0' }
    else if d == 1 { '1' }
    else if d == 2 { '2' }
    else if d == 3 { '3' }
    else if d == 4 { '4' }
    else if d == 5 { '5' }
    else if d == 6 { '6' }
    else if d == 7 { '7' }
    else if d == 8 { '8' }
    else { '9' }
}

/// Decimal notation of `n`.
pub fn decimal_string(n: u64) -> (s: String)
    ensures
        s@ == decimal(n as nat),
    decreases n,
{
    if n < 10 {
        let mut s = String::new();
        string_push(&mut s, digit(n));
        assert(s@ =~= decimal(n as nat));
        s
    } else {
        let mut s = decimal_string(n / 10);
        string_push(&mut s, digit(n % 10));
        s
    }
}

/// Appends `b` to `a`.
pub fn concat(a: &str, b: &str) -> (s: String)
    ensures
        s@ == a@ + b@,
{
    let mut s = String::from_str(a);
    s.append(b);
    s
}

} // verus!

verus! {

/// A copy of `v`.
pub fn clone_bytes(v: &[u8]) -> (w: Vec<u8>)
    ensures
        w@ == v@,
{
    let mut w: Vec<u8> = Vec::new();
    let mut i: usize = 0;
    while i < v.len()
        invariant
            i <= v@.len(),
            w@ == v@.subrange(0, i as int),
        decreases v@.len() - i,
    {
        w.push(v[i]);
        i = i + 1;
        assert(w@ =~= v@.subrange(0, i as int));
    }
    assert(w@ =~= v@);
    w
}

} // verus!

verus! {

/// Unicode `White_Space`, the set that `char::is_whitespace` tests.
pub open spec fn is_ws(c: char) -> bool {
    let n = c as u32;
    (0x9 <= n <= 0xD) || n == 0x20 || n == 0x85 || n == 0xA0 || n == 0x1680 || (0x2000 <= n
        <= 0x200A) || n == 0x2028 || n == 0x2029 || n == 0x202F || n == 0x205F || n == 0x3000
}

pub fn char_is_ws(c: char) -> (r: bool)
    ensures
        r == is_ws(c),
{
    let n = c as u32;
    (0x9 <= n && n <= 0xD) || n == 0x20 || n == 0x85 || n == 0xA0 || n == 0x1680 || (0x2000 <= n
        && n <= 0x200A) || n == 0x2028 || n == 0x2029 || n == 0x202F || n == 0x205F || n == 0x3000
}

/// Index of the first character that is not white space (`s.len()` if none).
pub open spec fn trim_start_idx(s: Seq<char>) -> int
    decreases s.len(),
{
    if s.len() == 0 || !is_ws(s[0]) {
        0
    } else {
        1 + trim_start_idx(s.drop_first())
    }
}

/// `str::trim_start`.
pub open spec fn trim_start_spec(s: Seq<char>) -> Seq<char>
    decreases s.len(),
{
    if s.len() == 0 || !is_ws(s[0]) {
        s
    } else {
        trim_start_spec(s.drop_first())
    }
}

/// `str::trim_end`.
pub open spec fn trim_end_spec(s: Seq<char>) -> Seq<char>
    decreases s.len(),
{
    if s.len() == 0 || !is_ws(s.last()) {
        s
    } else {
        trim_end_spec(s.drop_last())
    }
}

/// `str::trim`.
pub open spec fn trim_spec(s: Seq<char>) -> Seq<char> {
    trim_end_spec(trim_start_spec(s))
}

/// `str::trim_end_matches(c)`.
pub open spec fn trim_end_char_spec(s: Seq<char>, c: char) -> Seq<char>
    decreases s.len(),
{
    if s.len() == 0 || s.last() != c {
        s
    } else {
        trim_end_char_spec(s.drop_last(), c)
    }
}

proof fn lemma_trim_start_sub(s: Seq<char>, i: int)
    requires
        0 <= i <= s.len(),
        forall|j: int| 0 <= j < i ==> is_ws(#[trigger] s[j]),
    ensures
        trim_start_spec(s) == trim_start_spec(s.subrange(i, s.len() as int)),
    decreases i,
{
    if i > 0 {
        assert(s.drop_first().subrange(i - 1, s.drop_first().len() as int) =~= s.subrange(
            i,
            s.len() as int,
        ));
        assert forall|j: int| 0 <= j < i - 1 implies is_ws(#[trigger] s.drop_first()[j]) by {
            assert(s.drop_first()[j] == s[j + 1]);
        }
        lemma_trim_start_sub(s.drop_first(), i - 1);
    } else {
        assert(s.subrange(0, s.len() as int) =~= s);
    }
}

proof fn lemma_trim_end_sub(s: Seq<char>, k: int)
    requires
        0 <= k <= s.len(),
        forall|j: int| k <= j < s.len() ==> is_ws(#[trigger] s[j]),
    ensures
        trim_end_spec(s) == trim_end_spec(s.subrange(0, k)),
    decreases s.len() - k,
{
    if k < s.len() {
        assert(s.drop_last().subrange(0, k) =~= s.subrange(0, k));
        assert forall|j: int| k <= j < s.drop_last().len() implies is_ws(#[trigger] s.drop_last()[j]) by {
            assert(s.drop_last()[j] == s[j]);
        }
        lemma_trim_end_sub(s.drop_last(), k);
    } else {
        assert(s.subrange(0, k) =~= s);
    }
}

/// `cs` without white space at either end.
pub fn trim_chars(cs: &[char]) -> (r: Vec<char>)
    ensures
        r@ == trim_spec(cs@),
{
    let mut i: usize = 0;
    while i < cs.len() && char_is_ws(cs[i])
        invariant
            i <= cs@.len(),
            forall|j: int| 0 <= j < i ==> is_ws(#[trigger] cs@[j]),
        decreases cs@.len() - i,
    {
        i = i + 1;
    }
    proof {
        lemma_trim_start_sub(cs@, i as int);
    }
    let ghost t = cs@.subrange(i as int, cs@.len() as int);
    assert(i == cs@.len() || !is_ws(t[0]));
    assert(trim_start_spec(t) == t);
    let mut k: usize = cs.len();
    while k > i && char_is_ws(cs[k - 1])
        invariant
            i <= k <= cs@.len(),
            forall|j: int| k <= j < cs@.len() ==> is_ws(#[trigger] cs@[j]),
        decreases k,
    {
        k = k - 1;
    }
    proof {
        assert forall|j: int| (k - i) <= j < t.len() implies is_ws(#[trigger] t[j]) by {
            assert(t[j] == cs@[j + i]);
        }
        lemma_trim_end_sub(t, k - i);
        assert(t.subrange(0, k - i) =~= cs@.subrange(i as int, k as int));
    }
    let mut r: Vec<char> = Vec::new();
    let mut p: usize = i;
    while p < k
        invariant
            i <= p <= k <= cs@.len(),
            r@ == cs@.subrange(i as int, p as int),
        decreases k - p,
    {
        r.push(cs[p]);
        p = p + 1;
        assert(r@ =~= cs@.subrange(i as int, p as int));
    }
    r
}

/// `s.trim_end_matches(c)`.
pub fn trim_end_char(s: &str, c: char) -> (r: String)
    ensures
        r@ == trim_end_char_spec(s@, c),
{
    let cs = chars_of(s);
    let mut k: usize = cs.len();
    assert(cs@.subrange(0, cs@.len() as int) =~= cs@);
    while k > 0 && cs[k - 1] == c
        invariant
            k <= cs@.len(),
            cs@ == s@,
            trim_end_char_spec(s@, c) == trim_end_char_spec(cs@.subrange(0, k as int), c),
        decreases k,
    {
        proof {
            assert(cs@.subrange(0, k as int).drop_last() =~= cs@.subrange(0, k - 1));
        }
        k = k - 1;
    }
    let mut out = String::new();
    let mut p: usize = 0;
    while p < k
        invariant
            p <= k <= cs@.len(),
            out@ == cs@.subrange(0, p as int),
        decreases k - p,
    {
        string_push(&mut out, cs[p]);
        p = p + 1;
        assert(out@ =~= cs@.subrange(0, p as int));
    }
    out
}

} // verus!

verus! {

/// Index of the first `'\n'` in `s`, or `s.len()` when there is none.
pub open spec fn first_newline(s: Seq<char>) -> nat
    decreases s.len(),
{
    if s.len() == 0 || s[0] == '\n' {
        0
    } else {
        1 + first_newline(s.drop_first())
    }
}

pub proof fn lemma_first_newline(s: Seq<char>)
    ensures
        first_newline(s) <= s.len(),
        first_newline(s) < s.len() ==> s[first_newline(s) as int] == '\n',
        forall|j: int| 0 <= j < first_newline(s) ==> s[j] != '\n',
    decreases s.len(),
{
    if s.len() > 0 && s[0] != '\n' {
        lemma_first_newline(s.drop_first());
        assert forall|j: int| 0 <= j < first_newline(s) implies s[j] != '\n' by {
            if j > 0 {
                assert(s[j] == s.drop_first()[j - 1]);
            }
        }
    }
}

pub proof fn lemma_first_newline_at(s: Seq<char>, q: int)
    requires
        0 <= q <= s.len(),
        forall|j: int| 0 <= j < q ==> s[j] != '\n',
        q < s.len() ==> s[q] == '\n',
    ensures
        first_newline(s) == q,
    decreases q,
{
    if q > 0 {
        assert forall|j: int| 0 <= j < q - 1 implies s.drop_first()[j] != '\n' by {
            assert(s.drop_first()[j] == s[j + 1]);
        }
        lemma_first_newline_at(s.drop_first(), q - 1);
    }
}

/// A line without its final `'\r'`.
pub open spec fn strip_cr(line: Seq<char>) -> Seq<char> {
    if line.len() > 0 && line.last() == '\r' {
        line.drop_last()
    } else {
        line
    }
}

/// `str::lines`: the pieces between `'\n'`s, each without the `'\r'` of a
/// `"\r\n"` ending; the text after a final `'\n'` makes no line.
pub open spec fn lines_spec(s: Seq<char>) -> Seq<Seq<char>>
    decreases s.len(),
{
    if s.len() == 0 {
        seq![]
    } else {
        let i = first_newline(s) as int;
        if i < s.len() {
            proof {
                lemma_first_newline(s);
            }
            seq![strip_cr(s.subrange(0, i))] + lines_spec(s.subrange(i + 1, s.len() as int))
        } else {
            seq![s]
        }
    }
}

} // verus!

verus! {

/// The characters of `cs` from `a` up to `b`.
pub fn sub_chars(cs: &Vec<char>, a: usize, b: usize) -> (r: Vec<char>)
    requires
        a <= b <= cs@.len(),
    ensures
        r@ == cs@.subrange(a as int, b as int),
{
    let mut r: Vec<char> = Vec::new();
    let mut q: usize = a;
    while q < b
        invariant
            a <= q <= b <= cs@.len(),
            r@ == cs@.subrange(a as int, q as int),
        decreases b - q,
    {
        r.push(cs[q]);
        q = q + 1;
        assert(r@ =~= cs@.subrange(a as int, q as int));
    }
    r
}

/// The lines of `cs`, as `str::lines` gives them.
pub fn split_lines(cs: &Vec<char>) -> (ls: Vec<Vec<char>>)
    ensures
        ls@.len() == lines_spec(cs@).len(),
        forall|i: int| 0 <= i < ls@.len() ==> #[trigger] ls@[i]@ == lines_spec(cs@)[i],
{
    let ghost whole = lines_spec(cs@);
    let ghost mut got: Seq<Seq<char>> = seq![];
    let mut out: Vec<Vec<char>> = Vec::new();
    let mut start: usize = 0;
    let mut p: usize = 0;
    assert(cs@.subrange(0, cs@.len() as int) =~= cs@);
    assert(got + whole =~= whole);
    while p < cs.len()
        invariant
            start <= p <= cs@.len(),
            forall|j: int| start <= j < p ==> cs@[j] != '\n',
            out@.len() == got.len(),
            forall|i: int| 0 <= i < out@.len() ==> #[trigger] out@[i]@ == got[i],
            got + lines_spec(cs@.subrange(start as int, cs@.len() as int)) == whole,
        decreases cs@.len() - p,
    {
        if cs[p] == '\n' {
            let ghost rest = cs@.subrange(start as int, cs@.len() as int);
            proof {
                assert forall|j: int| 0 <= j < p - start implies rest[j] != '\n' by {
                    assert(rest[j] == cs@[start + j]);
                }
                lemma_first_newline_at(rest, p - start);
                assert(rest.subrange((p - start) + 1, rest.len() as int) =~= cs@.subrange(p + 1, cs@.len() as int));
                assert(rest.subrange(0, p - start) =~= cs@.subrange(start as int, p as int));
            }
            let mut line = sub_chars(cs, start, p);
            if line.len() > 0 && line[line.len() - 1] == '\r' {
                line.pop();
            }
            proof {
                assert(line@ == strip_cr(cs@.subrange(start as int, p as int)));
                let next = lines_spec(cs@.subrange(p + 1, cs@.len() as int));
                assert(lines_spec(rest) == seq![line@] + next);
                assert(got.push(line@) + next =~= got + (seq![line@] + next));
                got = got.push(line@);
            }
            out.push(line);
            start = p + 1;
        }
        p = p + 1;
    }
    if start < cs.len() {
        let ghost rest = cs@.subrange(start as int, cs@.len() as int);
        proof {
            assert forall|j: int| 0 <= j < rest.len() implies rest[j] != '\n' by {
                assert(rest[j] == cs@[start + j]);
            }
            lemma_first_newline_at(rest, rest.len() as int);
            assert(lines_spec(rest) == seq![rest]);
        }
        let line = sub_chars(cs, start, cs.len());
        proof {
            got = got.push(line@);
        }
        out.push(line);
    } else {
        proof {
            assert(cs@.subrange(start as int, cs@.len() as int).len() == 0);
            assert(got + Seq::<Seq<char>>::empty() =~= got);
        }
    }
    out
}

} // verus!

verus! {

/// The text of `std::str::Utf8Error` (which `String::from_utf8`'s error
/// shows too) for bytes `b` that are not UTF-8.
pub uninterp spec fn utf8_error_text(b: Seq<u8>) -> Seq<char>;

/// `std::str::from_utf8`: the text `b` encodes, or the text of its error
/// when it is not UTF-8.  The contract names the error's text.
#[verifier::external_body]
pub fn utf8_decode(b: &[u8]) -> (r: Result<String, String>)
    ensures
        r is Ok <==> vstd::utf8::valid_utf8(b@),
        r matches Ok(s) ==> s@ == vstd::utf8::decode_utf8(b@),
        r matches Err(e) ==> e@ == utf8_error_text(b@),
{
    std::str::from_utf8(b).map(|s| s.to_string()).map_err(|e| e.to_string())
}

/// What `String::from_utf8_lossy` makes of `b`.
pub uninterp spec fn utf8_lossy_spec(b: Seq<u8>) -> Seq<char>;

/// `String::from_utf8_lossy`: `b` read as UTF-8, each invalid sequence
/// replaced by U+FFFD.  The contract names the text and states that valid
/// UTF-8 is read as it is; the replacement rule is not stated.
#[verifier::external_body]
pub fn utf8_lossy(b: &[u8]) -> (s: String)
    ensures
        s@ == utf8_lossy_spec(b@),
        vstd::utf8::valid_utf8(b@) ==> s@ == vstd::utf8::decode_utf8(b@),
{
    String::from_utf8_lossy(b).into_owned()
}

/// The UTF-8 bytes of `s`.
pub fn utf8_bytes(s: &str) -> (b: Vec<u8>)
    ensures
        b@ == vstd::utf8::encode_utf8(s@),
{
    s.as_bytes_vec()
}

} // verus!
