//! The searched value of a value search, and the test of one value change.
use crate::checker::VarChecker;
use crate::matcher::ValueMatcher;
use crate::types::Handle;
use vstd::prelude::*;

verus! {

#[verifier::external_type_specification]
#[verifier::external_body]
pub struct ExBytesRegex(regex::bytes::Regex);

/// Whether `pattern` compiles as a regular expression over bytes.
pub uninterp spec fn bytes_regex_valid(pattern: Seq<char>) -> bool;

/// Whether the regular expression over bytes `pattern` matches somewhere in
/// `text`.
pub uninterp spec fn bytes_regex_accepts(pattern: Seq<char>, text: Seq<u8>) -> bool;

/// Relies on `regex::bytes::Regex::new`: it compiles `pattern`, and whether
/// it succeeds depends on the pattern alone.
#[verifier::external_body]
fn compile_bytes_regex(pattern: &str) -> (r: Result<regex::bytes::Regex, String>)
    ensures
        r is Ok <==> bytes_regex_valid(pattern@),
{
    regex::bytes::Regex::new(pattern).map_err(|e| e.to_string())
}

/// A compiled value pattern, kept with its source text.
pub struct ValuePattern {
    pattern: String,
    re: regex::bytes::Regex,
}

/// Relies on `regex::bytes::Regex::is_match` on the expression that
/// [`ValuePattern::new`] compiled from `p`'s pattern: whether it matches
/// somewhere in `text`.
#[verifier::external_body]
fn value_pattern_is_match(p: &ValuePattern, text: &[u8]) -> (r: bool)
    ensures
        r == bytes_regex_accepts(p.pattern(), text@),
{
    p.re.is_match(text)
}

impl ValuePattern {
    /// The source text of the pattern.
    pub closed spec fn pattern(&self) -> Seq<char> {
        self.pattern@
    }

    /// Compiles `pattern`; on failure, returns the compiler's message.
    pub fn new(pattern: &str) -> (r: Result<ValuePattern, String>)
        ensures
            r is Ok <==> bytes_regex_valid(pattern@),
            r matches Ok(p) ==> p.pattern() == pattern@,
    {
        match compile_bytes_regex(pattern) {
            Ok(re) => Ok(ValuePattern { pattern: pattern.to_owned(), re }),
            Err(msg) => Err(msg),
        }
    }
}

/// Matches binary values with a pattern.
pub struct RegexMatcher {
    re: ValuePattern,
}

impl RegexMatcher {
    pub closed spec fn pattern(&self) -> Seq<char> {
        self.re.pattern()
    }

    /// Creates the matcher of `re`.
    pub fn new(re: ValuePattern) -> (r: Self)
        ensures
            r.pattern() == re.pattern(),
    {
        RegexMatcher { re }
    }
}

impl ValueMatcher for RegexMatcher {
    open spec fn accepts(&self, value: Seq<u8>) -> bool {
        bytes_regex_accepts(self.pattern(), value)
    }

    fn is_match(&self, value: &[u8]) -> (r: bool) {
        value_pattern_is_match(&self.re, value)
    }
}

/// The number that the binary digits `s` stand for, any digit other than
/// `'0'` reading as one.
pub open spec fn bits_value(s: Seq<u8>) -> nat
    decreases s.len(),
{
    if s.len() == 0 {
        0
    } else {
        2 * bits_value(s.drop_last()) + if s.last() != 48u8 {
            1nat
        } else {
            0nat
        }
    }
}

/// The lower-case hexadecimal digit of `d < 16`.
pub open spec fn hex_char(d: nat) -> u8 {
    if d < 10 {
        (48 + d) as u8
    } else {
        (87 + d) as u8
    }
}

/// The length of the leftmost group of four digits of `n` digits, counted
/// from the right.
pub open spec fn first_group(n: nat) -> nat {
    if n % 4 == 0 {
        4
    } else {
        n % 4
    }
}

/// The hexadecimal digits of the binary digits `v`, grouped by four from the
/// right.
pub open spec fn hex_digits(v: Seq<u8>) -> Seq<u8>
    decreases v.len(),
{
    if v.len() == 0 {
        Seq::empty()
    } else {
        let g = first_group(v.len());
        seq![hex_char(bits_value(v.take(g as int)))] + hex_digits(v.skip(g as int))
    }
}

/// Returns the hexadecimal digits of the binary value `value`.
fn to_hex(value: &[u8]) -> (r: Vec<u8>)
    ensures
        r@ == hex_digits(value@),
{
    let n = value.len();
    let mut out: Vec<u8> = Vec::new();
    let mut pos: usize = 0;
    assert(value@.skip(0) =~= value@);
    assert(out@ + hex_digits(value@) =~= hex_digits(value@));
    while pos < n
        invariant
            n == value@.len(),
            pos <= n,
            out@ + hex_digits(value@.skip(pos as int)) == hex_digits(value@),
        decreases n - pos,
    {
        let rem = n - pos;
        let g = if rem % 4 == 0 {
            4
        } else {
            rem % 4
        };
        let ghost rest = value@.skip(pos as int);
        let mut d: u32 = 0;
        let mut j: usize = 0;
        while j < g
            invariant
                n == value@.len(),
                pos + g <= n,
                g <= 4,
                j <= g,
                rest == value@.skip(pos as int),
                d == bits_value(rest.take(j as int)),
                d < pow2_small(j as nat),
            decreases g - j,
        {
            assert(rest.take(j + 1).drop_last() =~= rest.take(j as int));
            assert(rest.take(j + 1).last() == value@[pos + j]);
            let bit: u32 = if value[pos + j] != 48u8 {
                1
            } else {
                0
            };
            d = 2 * d + bit;
            j = j + 1;
        }
        let c: u8 = if d < 10 {
            (48 + d) as u8
        } else {
            (87 + d) as u8
        };
        out.push(c);
        proof {
            assert(rest.skip(g as int) =~= value@.skip(pos + g));
            assert(out@ + hex_digits(value@.skip(pos + g)) =~= (out@.drop_last() + hex_digits(rest)));
        }
        pos = pos + g;
    }
    assert(value@.skip(n as int) =~= Seq::<u8>::empty());
    assert(out@ + Seq::<u8>::empty() =~= out@);
    out
}

/// Two to the `j`, for `j` up to four.
pub open spec fn pow2_small(j: nat) -> nat {
    if j == 0 {
        1
    } else if j == 1 {
        2
    } else if j == 2 {
        4
    } else if j == 3 {
        8
    } else {
        16
    }
}

/// Matches binary values with a pattern over their hexadecimal digits.
pub struct RegexHexMatcher {
    re: ValuePattern,
}

impl RegexHexMatcher {
    pub closed spec fn pattern(&self) -> Seq<char> {
        self.re.pattern()
    }

    /// Creates the matcher of `re`.
    pub fn new(re: ValuePattern) -> (r: Self)
        ensures
            r.pattern() == re.pattern(),
    {
        RegexHexMatcher { re }
    }
}

impl ValueMatcher for RegexHexMatcher {
    open spec fn accepts(&self, value: Seq<u8>) -> bool {
        bytes_regex_accepts(self.pattern(), hex_digits(value))
    }

    fn is_match(&self, value: &[u8]) -> (r: bool) {
        let hex = to_hex(value);
        value_pattern_is_match(&self.re, hex.as_slice())
    }
}

/// What makes a searched value invalid.
#[derive(Clone, Debug, PartialEq, Eq)]
pub enum Error {
    /// The pattern does not compile; the compiler's message.
    Regex(String),
    /// A digit of a hexadecimal value is not one.
    InvalidHex(String),
    /// A digit of a binary value is not one.
    InvalidBin(String),
}

/// The value of a hexadecimal digit, as `char::to_digit(16)` reads it.
pub open spec fn hex_value(c: char) -> Option<nat> {
    if '0' <= c <= '9' {
        Some((c as nat - '0' as nat) as nat)
    } else if 'a' <= c <= 'f' {
        Some((c as nat - 'a' as nat + 10) as nat)
    } else if 'A' <= c <= 'F' {
        Some((c as nat - 'A' as nat + 10) as nat)
    } else {
        None
    }
}

pub open spec fn bit_char(x: nat) -> u8 {
    if x % 2 == 1 {
        49u8
    } else {
        48u8
    }
}

/// The four binary digits of `d < 16`, highest first.
pub open spec fn nibble(d: nat) -> Seq<u8> {
    seq![bit_char(d / 8), bit_char(d / 4), bit_char(d / 2), bit_char(d)]
}

/// The binary digits of the hexadecimal digits `s`, if all are digits.
pub open spec fn expand_hex(s: Seq<char>) -> Option<Seq<u8>>
    decreases s.len(),
{
    if s.len() == 0 {
        Some(Seq::empty())
    } else {
        match (expand_hex(s.drop_last()), hex_value(s.last())) {
            (Some(a), Some(d)) => Some(a + nibble(d)),
            _ => None,
        }
    }
}

/// Whether every character of `s` is a binary digit.
pub open spec fn is_binary(s: Seq<char>) -> bool {
    forall|i: int| 0 <= i < s.len() ==> #[trigger] s[i] == '0' || s[i] == '1'
}

/// How values are matched in a value search.
pub enum MatchInfo {
    /// By a pattern, over the hexadecimal digits if the flag is set.
    Regex(ValuePattern, bool),
    /// By a binary value, up to zeros on the left.
    Exact(Vec<u8>),
}

impl MatchInfo {
    /// Reads the searched `value`: a pattern if `regex`, else a hexadecimal
    /// value if `hex`, else a binary one.
    pub fn new(value: &str, hex: bool, regex: bool) -> (r: Result<MatchInfo, Error>)
        ensures
            regex ==> match r {
                Ok(MatchInfo::Regex(p, h)) => bytes_regex_valid(value@) && p.pattern() == value@ && h == hex,
                Ok(MatchInfo::Exact(_)) => false,
                Err(e) => !bytes_regex_valid(value@) && e is Regex,
            },
            !regex && hex ==> match expand_hex(value@) {
                Some(bits) => r matches Ok(MatchInfo::Exact(v)) && v@ == bits,
                None => r matches Err(Error::InvalidHex(v)) && v@ == value@,
            },
            !regex && !hex ==> if is_binary(value@) {
                r matches Ok(MatchInfo::Exact(v)) && v@ == value@.map_values(|c: char| if c == '1' { 49u8 } else { 48u8 })
            } else {
                r matches Err(Error::InvalidBin(v)) && v@ == value@
            },
    {
        if regex {
            return match ValuePattern::new(value) {
                Ok(p) => Ok(MatchInfo::Regex(p, hex)),
                Err(msg) => Err(Error::Regex(msg)),
            };
        }
        if hex {
            return match hex_to_bits(value) {
                Some(bits) => Ok(MatchInfo::Exact(bits)),
                None => Err(Error::InvalidHex(value.to_owned())),
            };
        }
        let n = value.unicode_len();
        let mut s: Vec<u8> = Vec::new();
        let mut i: usize = 0;
        while i < n
            invariant
                !regex,
                !hex,
                n == value@.len(),
                i <= n,
                is_binary(value@.take(i as int)),
                s@ == value@.take(i as int).map_values(|c: char| if c == '1' { 49u8 } else { 48u8 }),
            decreases n - i,
        {
            let c = value.get_char(i);
            assert(value@[i as int] == c);
            if c != '0' && c != '1' {
                return Err(Error::InvalidBin(value.to_owned()));
            }
            s.push(if c == '1' { 49u8 } else { 48u8 });
            assert(value@.take(i + 1) =~= value@.take(i as int).push(c));
            assert(s@ =~= value@.take(i + 1).map_values(|c: char| if c == '1' { 49u8 } else { 48u8 }));
            i = i + 1;
        }
        assert(value@.take(n as int) =~= value@);
        Ok(MatchInfo::Exact(s))
    }
}

/// The binary digits of the hexadecimal digits `value`, if all are digits.
fn hex_to_bits(value: &str) -> (r: Option<Vec<u8>>)
    ensures
        match expand_hex(value@) {
            Some(bits) => r matches Some(v) && v@ == bits,
            None => r is None,
        },
{
    let n = value.unicode_len();
    let mut s: Vec<u8> = Vec::new();
    let mut i: usize = 0;
    while i < n
        invariant
            n == value@.len(),
            i <= n,
            expand_hex(value@.take(i as int)) == Some(s@),
        decreases n - i,
    {
        let c = value.get_char(i);
        assert(value@.take(i + 1).drop_last() =~= value@.take(i as int));
        assert(value@.take(i + 1).last() == c);
        let digit: u32 = if '0' <= c && c <= '9' {
            (c as u32) - ('0' as u32)
        } else if 'a' <= c && c <= 'f' {
            (c as u32) - ('a' as u32) + 10
        } else if 'A' <= c && c <= 'F' {
            (c as u32) - ('A' as u32) + 10
        } else {
            proof {
                lemma_expand_hex_none(value@, i as int + 1);
            }
            return None;
        };
        s.push(if (digit / 8) % 2 == 1 { 49u8 } else { 48u8 });
        s.push(if (digit / 4) % 2 == 1 { 49u8 } else { 48u8 });
        s.push(if (digit / 2) % 2 == 1 { 49u8 } else { 48u8 });
        s.push(if digit % 2 == 1 { 49u8 } else { 48u8 });
        i = i + 1;
    }
    assert(value@.take(n as int) =~= value@);
    Some(s)
}

/// Once a prefix of `s` has a character that is no hexadecimal digit, `s`
/// has no expansion.
proof fn lemma_expand_hex_none(s: Seq<char>, i: int)
    requires
        0 <= i <= s.len(),
        expand_hex(s.take(i)) is None,
    ensures
        expand_hex(s) is None,
    decreases s.len() - i,
{
    if i < s.len() {
        assert(s.take(i + 1).drop_last() =~= s.take(i));
        lemma_expand_hex_none(s, i + 1);
    } else {
        assert(s.take(i) =~= s);
    }
}

/// Tests one value change of a value search: the name to report for the
/// signal `handle`, if `value` matches and a hit on the signal is to be
/// reported.
pub fn find_value_callback<M: ValueMatcher, T, C: VarChecker<T>>(
    value_matcher: &M,
    var_checker: &mut C,
    handle: Handle,
    value: &[u8],
) -> (r: Option<String>)
    requires
        old(var_checker).can_check(handle.id()),
    ensures
        r is Some <==> value_matcher.accepts(value@) && old(var_checker).names().contains_key(handle.id())
            && old(var_checker).pending(handle.id()),
        r matches Some(n) ==> n@ == old(var_checker).names()[handle.id()],
        !value_matcher.accepts(value@) ==> *final(var_checker) == *old(var_checker),
        final(var_checker).names() == old(var_checker).names(),
        forall|h: u32| final(var_checker).can_check(h) == old(var_checker).can_check(h),
        final(var_checker).once() == old(var_checker).once(),
        forall|h: u32| h != handle.id() ==> final(var_checker).pending(h) == old(var_checker).pending(h),
        value_matcher.accepts(value@) && old(var_checker).once() ==> !final(var_checker).pending(handle.id()),
        !(value_matcher.accepts(value@) && old(var_checker).once()) ==> final(var_checker).pending(handle.id())
            == old(var_checker).pending(handle.id()),
{
    if value_matcher.is_match(value) {
        var_checker.check(handle)
    } else {
        None
    }
}

} // verus!
