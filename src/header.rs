use vstd::prelude::*;

verus! {

#[verifier::external_type_specification]
#[verifier::external_body]
pub struct ExInvalidHeaderName(http::header::InvalidHeaderName);

#[verifier::external_type_specification]
#[verifier::external_body]
pub struct ExInvalidHeaderValue(http::header::InvalidHeaderValue);

#[verifier::external_type_specification]
#[verifier::external_body]
pub struct ExHeaderValue(http::header::HeaderValue);

/// Unicode `White_Space`, the characters that `str::trim` removes.
pub open spec fn is_white_space(c: char) -> bool {
    let u = c as u32;
    (0x09 <= u <= 0x0d) || u == 0x20 || u == 0x85 || u == 0xa0 || u == 0x1680
        || (0x2000 <= u <= 0x200a) || u == 0x2028 || u == 0x2029 || u == 0x202f
        || u == 0x205f || u == 0x3000
}

pub open spec fn trim_start(s: Seq<char>) -> Seq<char>
    decreases s.len(),
{
    if s.len() > 0 && is_white_space(s[0]) {
        trim_start(s.drop_first())
    } else {
        s
    }
}

pub open spec fn trim_end(s: Seq<char>) -> Seq<char>
    decreases s.len(),
{
    if s.len() > 0 && is_white_space(s.last()) {
        trim_end(s.drop_last())
    } else {
        s
    }
}

/// `s` without its leading and trailing white space.
pub open spec fn trimmed(s: Seq<char>) -> Seq<char> {
    trim_end(trim_start(s))
}

/// A character of the HTTP token grammar (`tchar`).
pub open spec fn is_tchar(c: char) -> bool {
    let u = c as u32;
    ('0' as u32 <= u <= '9' as u32) || ('a' as u32 <= u <= 'z' as u32) || ('A' as u32 <= u
        <= 'Z' as u32) || c == '!' || c == '#' || c == '$' || c == '%' || c == '&' || c == '\''
        || c == '*' || c == '+' || c == '-' || c == '.' || c == '^' || c == '_' || c == '`'
        || c == '|' || c == '~'
}

/// The longest header name that is accepted.
pub const MAX_NAME_LEN: usize = 65535;

/// A non-empty token of bounded length: a valid header field name.
pub open spec fn valid_name(n: Seq<char>) -> bool {
    0 < n.len() <= MAX_NAME_LEN && forall|i: int| 0 <= i < n.len() ==> is_tchar(#[trigger] n[i])
}

/// A character allowed in a header field value: no control character but
/// horizontal tab.
pub open spec fn is_value_char(c: char) -> bool {
    let u = c as u32;
    (u >= 0x20 && u != 0x7f) || u == 0x09
}

pub open spec fn valid_value(v: Seq<char>) -> bool {
    forall|i: int| 0 <= i < v.len() ==> is_value_char(#[trigger] v[i])
}

pub open spec fn lower_char(c: char) -> char {
    if 'A' as u32 <= c as u32 <= 'Z' as u32 {
        ((c as u32) + 32) as char
    } else {
        c
    }
}

/// ASCII lower case of `s`: how header names are normalised.
pub open spec fn lower_ascii(s: Seq<char>) -> Seq<char> {
    s.map_values(|c: char| lower_char(c))
}

/// Index of the last `:` in `s`, or -1 where there is none.
pub open spec fn last_colon(s: Seq<char>) -> int
    decreases s.len(),
{
    if s.len() == 0 {
        -1
    } else if s.last() == ':' {
        s.len() - 1
    } else {
        last_colon(s.drop_last())
    }
}

/// The name segment: what stands before the last colon, trimmed.
pub open spec fn name_part(s: Seq<char>) -> Seq<char> {
    trimmed(s.take(last_colon(s)))
}

/// The value segment: what stands after the last colon, trimmed.
pub open spec fn value_part(s: Seq<char>) -> Seq<char> {
    trimmed(s.skip(last_colon(s) + 1))
}

/// Why a raw header argument was rejected, as plain values.
pub enum HeaderErrorView {
    MissingSeparator,
    InvalidName(Seq<char>),
    InvalidValue(Seq<char>),
}

/// What parsing the raw header argument `s` gives: the normalised name and the
/// value, or the error.
pub open spec fn parse_outcome(s: Seq<char>) -> Result<(Seq<char>, Seq<char>), HeaderErrorView> {
    if last_colon(s) < 0 {
        Err(HeaderErrorView::MissingSeparator)
    } else if !valid_name(name_part(s)) {
        Err(HeaderErrorView::InvalidName(name_part(s)))
    } else if !valid_value(value_part(s)) {
        Err(HeaderErrorView::InvalidValue(value_part(s)))
    } else {
        Ok((lower_ascii(name_part(s)), value_part(s)))
    }
}

/// The last colon of `s` is the one after which no colon stands.
pub proof fn lemma_last_colon(s: Seq<char>, k: int)
    requires
        0 <= k < s.len(),
        s[k] == ':',
        forall|j: int| k < j < s.len() ==> s[j] != ':',
    ensures
        last_colon(s) == k,
    decreases s.len(),
{
    if s.len() - 1 != k {
        assert(s.last() != ':');
        lemma_last_colon(s.drop_last(), k);
    }
}

proof fn lemma_no_colon(s: Seq<char>)
    requires
        forall|j: int| 0 <= j < s.len() ==> s[j] != ':',
    ensures
        last_colon(s) == -1,
    decreases s.len(),
{
    if s.len() > 0 {
        lemma_no_colon(s.drop_last());
    }
}

/// Where `s` holds a colon, the split is made at the last one: the name is what
/// stands before it, trimmed, and the value what stands after it, trimmed,
/// whatever colons the name segment holds.
pub proof fn split_at_last_colon(s: Seq<char>, k: int)
    requires
        0 <= k < s.len(),
        s[k] == ':',
        forall|j: int| k < j < s.len() ==> s[j] != ':',
    ensures
        name_part(s) == trimmed(s.take(k)),
        value_part(s) == trimmed(s.skip(k + 1)),
        parse_outcome(s) is Ok ==> parse_outcome(s) == Ok::<
            (Seq<char>, Seq<char>),
            HeaderErrorView,
        >((lower_ascii(trimmed(s.take(k))), trimmed(s.skip(k + 1)))),
{
    lemma_last_colon(s, k);
}

/// A string with a single colon, whose trimmed segments are a valid name and a
/// valid value, parses to that name (in lower case) and that value.
pub proof fn single_colon_parses(s: Seq<char>, k: int)
    requires
        0 <= k < s.len(),
        s[k] == ':',
        forall|j: int| 0 <= j < s.len() && j != k ==> s[j] != ':',
        valid_name(trimmed(s.take(k))),
        valid_value(trimmed(s.skip(k + 1))),
    ensures
        parse_outcome(s) == Ok::<(Seq<char>, Seq<char>), HeaderErrorView>(
            (lower_ascii(trimmed(s.take(k))), trimmed(s.skip(k + 1))),
        ),
{
    lemma_last_colon(s, k);
}

/// A string without a colon is rejected with `MissingSeparator`.
pub proof fn no_colon_is_missing_separator(s: Seq<char>)
    requires
        forall|j: int| 0 <= j < s.len() ==> s[j] != ':',
    ensures
        parse_outcome(s) == Err::<(Seq<char>, Seq<char>), HeaderErrorView>(
            HeaderErrorView::MissingSeparator,
        ),
{
    lemma_no_colon(s);
}

/// A name segment that holds a character outside the token grammar is rejected
/// with `InvalidName`, carrying that segment.
pub proof fn bad_name_char_is_invalid_name(s: Seq<char>, i: int)
    requires
        last_colon(s) >= 0,
        0 <= i < name_part(s).len(),
        !is_tchar(name_part(s)[i]),
    ensures
        parse_outcome(s) == Err::<(Seq<char>, Seq<char>), HeaderErrorView>(
            HeaderErrorView::InvalidName(name_part(s)),
        ),
{
}

/// With a valid name, a value segment that holds a newline is rejected with
/// `InvalidValue`, carrying that segment.
pub proof fn newline_in_value_is_invalid_value(s: Seq<char>, i: int)
    requires
        last_colon(s) >= 0,
        valid_name(name_part(s)),
        0 <= i < value_part(s).len(),
        value_part(s)[i] == '\n',
    ensures
        parse_outcome(s) == Err::<(Seq<char>, Seq<char>), HeaderErrorView>(
            HeaderErrorView::InvalidValue(value_part(s)),
        ),
{
    assert(!is_value_char(value_part(s)[i]));
}

/// A validated header field. The name is held in lower case.
#[derive(Clone, Debug, PartialEq, Eq)]
pub struct ArbitraryHeader {
    pub name: String,
    pub value: String,
}

impl View for ArbitraryHeader {
    type V = (Seq<char>, Seq<char>);

    open spec fn view(&self) -> (Seq<char>, Seq<char>) {
        (self.name@, self.value@)
    }
}

/// Why a raw header argument was rejected; the text is the offending segment.
#[derive(Clone, Debug, PartialEq, Eq)]
pub enum ArbitraryHeaderError {
    MissingSeparator,
    InvalidName(String),
    InvalidValue(String),
}

impl View for ArbitraryHeaderError {
    type V = HeaderErrorView;

    open spec fn view(&self) -> HeaderErrorView {
        match self {
            ArbitraryHeaderError::MissingSeparator => HeaderErrorView::MissingSeparator,
            ArbitraryHeaderError::InvalidName(t) => HeaderErrorView::InvalidName(t@),
            ArbitraryHeaderError::InvalidValue(t) => HeaderErrorView::InvalidValue(t@),
        }
    }
}

pub open spec fn result_view(r: Result<ArbitraryHeader, ArbitraryHeaderError>) -> Result<
    (Seq<char>, Seq<char>),
    HeaderErrorView,
> {
    match r {
        Ok(h) => Ok(h@),
        Err(e) => Err(e@),
    }
}

/// Relies on `str::trim`: removes leading and trailing `White_Space` characters.
#[verifier::external_body]
fn trim_ws(s: &str) -> (r: &str)
    ensures
        r@ == trimmed(s@),
{
    s.trim()
}

/// Relies on `http::HeaderName::from_bytes`: it accepts a non-empty token of at
/// most 65535 bytes and normalises it to lower case, which `as_str` gives back.
#[verifier::external_body]
fn header_name(s: &str) -> (r: Result<String, http::header::InvalidHeaderName>)
    ensures
        r is Ok <==> valid_name(s@),
        r matches Ok(n) ==> n@ == lower_ascii(s@),
{
    http::header::HeaderName::from_bytes(s.as_bytes()).map(|n| n.as_str().to_owned())
}

/// Relies on `http::HeaderValue::from_str`: it accepts a string whose bytes are
/// all visible or tab (bytes of non-ASCII characters are all 0x80 or above).
#[verifier::external_body]
fn header_value(s: &str) -> (r: Result<http::header::HeaderValue, http::header::InvalidHeaderValue>)
    ensures
        r is Ok <==> valid_value(s@),
{
    http::header::HeaderValue::from_str(s)
}

/// Index of the last `:` of `s`, if any.
fn find_last_colon(s: &str) -> (r: Option<usize>)
    ensures
        match r {
            Some(i) => i as int == last_colon(s@),
            None => last_colon(s@) < 0,
        },
        last_colon(s@) < s@.len(),
{
    let n = s.unicode_len();
    let mut i: usize = n;
    assert(s@.take(n as int) =~= s@);
    while i > 0
        invariant
            i <= n == s@.len(),
            last_colon(s@) == last_colon(s@.take(i as int)),
        decreases i,
    {
        assert(s@.take(i as int).last() == s@[i - 1]);
        if s.get_char(i - 1) == ':' {
            return Some(i - 1);
        }
        assert(s@.take(i as int).drop_last() =~= s@.take(i - 1));
        i = i - 1;
    }
    assert(s@.take(0) =~= Seq::<char>::empty());
    None
}

impl ArbitraryHeader {
    /// Parses a curl-style `Name: Value` argument. The separator is the last
    /// colon; both segments are trimmed; the name must be a token and the value
    /// free of control characters but tab.
    pub fn from_str(s: &str) -> (r: Result<ArbitraryHeader, ArbitraryHeaderError>)
        ensures
            result_view(r) == parse_outcome(s@),
    {
        let idx = match find_last_colon(s) {
            Some(i) => i,
            None => {
                return Err(ArbitraryHeaderError::MissingSeparator);
            },
        };
        let n = s.unicode_len();
        let name_str = trim_ws(s.substring_char(0, idx));
        let value_str = trim_ws(s.substring_char(idx + 1, n));
        assert(s@.subrange(0, idx as int) =~= s@.take(idx as int));
        assert(s@.subrange(idx + 1, n as int) =~= s@.skip(idx + 1));
        let name = match header_name(name_str) {
            Ok(nm) => nm,
            Err(_) => {
                return Err(ArbitraryHeaderError::InvalidName(name_str.to_owned()));
            },
        };
        match header_value(value_str) {
            Ok(_) => Ok(ArbitraryHeader { name, value: value_str.to_owned() }),
            Err(_) => Err(ArbitraryHeaderError::InvalidValue(value_str.to_owned())),
        }
    }
}

} // verus!
