//! REST-server housekeeping: the shutdown flag, control-socket paths, the
//! PID-file format, and URI path normalization.

use vstd::prelude::*;
use vstd::string::StrSliceExecFns;
use vstd::string::StringExecFns;

use crate::digits::{i64_dec_string, spec_dec_chars};

verus! {

/// A plain error with a message, raised by the server housekeeping helpers.
#[derive(Debug, Clone)]
pub struct ServerError {
    /// What went wrong.
    pub message: String,
}

/// Authentication Error
pub enum AuthError {
    /// Authentication failed with the given message.
    Generic(String),
    /// No credentials were presented.
    NoData,
}

/// The process-wide shutdown request, carried as an explicit value: the
/// accept loop races it against socket-accept and stops accepting without
/// cancelling in-flight handshakes.
pub struct ShutdownFlag {
    /// Whether a shutdown was requested.
    pub requested: bool,
}

impl ShutdownFlag {
    /// A flag with no shutdown requested.
    pub fn new() -> (r: ShutdownFlag)
        ensures
            r.requested == false,
    {
        ShutdownFlag { requested: false }
    }
}

/// Request a server shutdown (usually called from a signal handler).
pub fn request_shutdown(flag: &mut ShutdownFlag)
    ensures
        final(flag).requested == true,
{
    flag.requested = true;
}

/// Returns true if there was a shutdown request.
pub fn shutdown_requested(flag: &ShutdownFlag) -> (r: bool)
    ensures
        r == flag.requested,
{
    flag.requested
}

/// Raise an error if there was a shutdown request.
pub fn fail_on_shutdown(flag: &ShutdownFlag) -> (r: Result<(), ServerError>)
    ensures
        r is Err <==> flag.requested,
        r matches Err(e) ==> e.message@ == "Server shutdown requested - aborting task"@,
{
    if flag.requested {
        Err(ServerError { message: "Server shutdown requested - aborting task".to_owned() })
    } else {
        Ok(())
    }
}

/// Returns the control socket path for a specific process ID: an abstract
/// socket under `/run/proxmox-backup`, unique per PID.
pub fn ctrl_sock_from_pid(pid: i32) -> (r: String)
    ensures
        r@ == "\0/run/proxmox-backup/control-"@ + spec_dec_chars(pid as int) + ".sock"@,
{
    let mut s = String::new();
    s.append("\0/run/proxmox-backup/control-");
    let digits = i64_dec_string(pid as i64);
    s.append(digits.as_str());
    s.append(".sock");
    s
}

/// Returns the control socket path for this server, `pid` being the process
/// ID computed once at startup.
pub fn our_ctrl_sock(pid: i32) -> (r: String)
    ensures
        r@ == "\0/run/proxmox-backup/control-"@ + spec_dec_chars(pid as int) + ".sock"@,
{
    ctrl_sock_from_pid(pid)
}

/// The ASCII whitespace characters that PID-file contents are trimmed of.
pub open spec fn spec_is_ws(c: char) -> bool {
    c == ' ' || c == '\t' || c == '\n' || c == '\r' || c == '\u{b}' || c == '\u{c}'
}

/// The characters left after dropping leading whitespace.
pub open spec fn spec_drop_ws_front(s: Seq<char>) -> Seq<char>
    decreases s.len(),
{
    if s.len() > 0 && spec_is_ws(s[0]) {
        spec_drop_ws_front(s.skip(1))
    } else {
        s
    }
}

/// The characters left after dropping trailing whitespace.
pub open spec fn spec_drop_ws_back(s: Seq<char>) -> Seq<char>
    decreases s.len(),
{
    if s.len() > 0 && spec_is_ws(s.last()) {
        spec_drop_ws_back(s.drop_last())
    } else {
        s
    }
}

/// The characters left after trimming whitespace on both sides.
pub open spec fn spec_trimmed(s: Seq<char>) -> Seq<char> {
    spec_drop_ws_back(spec_drop_ws_front(s))
}

/// Whether a character is a decimal digit.
pub open spec fn spec_is_digit(c: char) -> bool {
    0x30 <= c as int <= 0x39
}

/// Whether every character of the run is a decimal digit.
pub open spec fn spec_all_digits(s: Seq<char>) -> bool {
    forall|i: int| 0 <= i < s.len() ==> spec_is_digit(s[i])
}

/// The value of a run of decimal digits, most significant first.
pub open spec fn spec_digits_value(s: Seq<char>) -> int
    decreases s.len(),
{
    if s.len() == 0 {
        0
    } else {
        spec_digits_value(s.drop_last()) * 10 + (s.last() as int - 0x30)
    }
}

/// What parsing a signed 32-bit decimal yields: an optional sign, then at
/// least one digit and nothing else, with the value in range.
pub open spec fn spec_parse_i32(s: Seq<char>) -> Option<i32> {
    let neg = s.len() > 0 && s[0] == '-';
    let body = if s.len() > 0 && (s[0] == '-' || s[0] == '+') {
        s.skip(1)
    } else {
        s
    };
    if body.len() == 0 || !spec_all_digits(body) {
        Option::None
    } else {
        let value = if neg {
            -spec_digits_value(body)
        } else {
            spec_digits_value(body)
        };
        if i32::MIN <= value <= i32::MAX {
            Option::Some(value as i32)
        } else {
            Option::None
        }
    }
}

/// The value of an all-digit run is never negative.
proof fn lemma_digits_value_nonneg(s: Seq<char>)
    requires
        spec_all_digits(s),
    ensures
        spec_digits_value(s) >= 0,
    decreases s.len(),
{
    if s.len() > 0 {
        lemma_digits_value_nonneg(s.drop_last());
    }
}

/// Extending an all-digit run by one digit multiplies its value by ten and
/// adds the digit; the value never shrinks.
proof fn lemma_digits_value_take_step(s: Seq<char>, m: int)
    requires
        0 <= m < s.len(),
        spec_all_digits(s),
    ensures
        spec_digits_value(s.take(m + 1)) == spec_digits_value(s.take(m)) * 10 + (s[m] as int
            - 0x30),
        spec_digits_value(s.take(m + 1)) >= spec_digits_value(s.take(m)),
{
    assert(s.take(m + 1).drop_last() =~= s.take(m));
    assert(s.take(m + 1).last() == s[m]);
    assert(spec_all_digits(s.take(m)));
    lemma_digits_value_nonneg(s.take(m));
}

/// The value of an all-digit run is at least the value of any of its
/// prefixes.
proof fn lemma_digits_value_prefix_le(s: Seq<char>, m: int)
    requires
        0 <= m <= s.len(),
        spec_all_digits(s),
    ensures
        spec_digits_value(s.take(m)) <= spec_digits_value(s),
    decreases s.len() - m,
{
    if m == s.len() {
        assert(s.take(m) =~= s);
    } else {
        lemma_digits_value_take_step(s, m);
        lemma_digits_value_prefix_le(s, m + 1);
    }
}

/// Whether an executable character is whitespace, per [`spec_is_ws`].
fn is_ws(c: char) -> (r: bool)
    ensures
        r == spec_is_ws(c),
{
    c == ' ' || c == '\t' || c == '\n' || c == '\r' || c == '\u{b}' || c == '\u{c}'
}

/// Helper to parse the contents of a PID file: the decimal process ID,
/// surrounded by optional whitespace.
#[verifier::loop_isolation(false)]
#[verifier::rlimit(50)]
pub fn parse_pid(s: &str) -> (r: Result<i32, ServerError>)
    ensures
        r matches Ok(pid) ==> spec_parse_i32(spec_trimmed(s@)) == Option::Some(pid),
        r is Err <==> spec_parse_i32(spec_trimmed(s@)) is None,
        r matches Err(e) ==> e.message@ == "could not parse pid"@,
{
    let n = s.unicode_len();
    let (a, b) = trimmed_range(s, 0, n);
    proof {
        assert(s@.subrange(0, n as int) =~= s@);
        assert(spec_trimmed(s@) == s@.subrange(a as int, b as int));
    }

    let ghost trimmed = s@.subrange(a as int, b as int);

    let err = ServerError { message: "could not parse pid".to_owned() };

    if a == b {
        return Err(err);
    }

    let first = s.get_char(a);
    let neg = first == '-';
    let start: usize = if first == '-' || first == '+' {
        a + 1
    } else {
        a
    };
    let ghost body = if trimmed.len() > 0 && (trimmed[0] == '-' || trimmed[0] == '+') {
        trimmed.skip(1)
    } else {
        trimmed
    };
    proof {
        assert(first == trimmed[0]);
        assert(neg == (trimmed.len() > 0 && trimmed[0] == '-'));
        assert(body =~= s@.subrange(start as int, b as int));
    }

    if start == b {
        return Err(err);
    }

    let bound: i64 = if neg {
        2147483648
    } else {
        2147483647
    };

    let mut acc: i64 = 0;
    let mut k: usize = start;
    while k < b
        invariant
            start <= k <= b <= n,
            n == s@.len(),
            body == s@.subrange(start as int, b as int),
            body.len() == b - start,
            0 <= acc <= bound,
            bound == if neg {
                2147483648i64
            } else {
                2147483647i64
            },
            acc == spec_digits_value(body.take(k - start)),
            forall|i: int| 0 <= i < k - start ==> spec_is_digit(body[i]),
        decreases b - k,
    {
        let c = s.get_char(k);
        let code = c as u32;
        if code < 0x30 || code > 0x39 {
            proof {
                assert(body[k - start] == c);
                assert(!spec_is_digit(c));
                assert(!spec_all_digits(body));
                assert(spec_parse_i32(spec_trimmed(s@)) is None);
            }
            return Err(err);
        }
        let d = (code - 0x30) as i64;
        acc = acc * 10 + d;
        proof {
            lemma_digits_value_take_step(body.take(k as int - start + 1), k as int - start);
            assert(body.take(k as int - start + 1).take(k as int - start) =~= body.take(
                k as int - start,
            ));
            assert(body.take(k as int - start + 1)[k - start] == body[k - start]);
        }
        k += 1;
        if acc > bound {
            proof {
                assert(body.take(k - start).len() == k - start);
                if spec_all_digits(body) {
                    lemma_digits_value_prefix_le(body, k - start);
                    assert(spec_digits_value(body) >= acc > bound);
                    if neg {
                        assert(-spec_digits_value(body) < i32::MIN);
                    } else {
                        assert(spec_digits_value(body) > i32::MAX);
                    }
                    assert(spec_parse_i32(spec_trimmed(s@)) is None);
                } else {
                    assert(spec_parse_i32(spec_trimmed(s@)) is None);
                }
            }
            return Err(err);
        }
    }
    proof {
        assert(body.take(b - start) =~= body);
    }

    if neg {
        Ok((-acc) as i32)
    } else {
        Ok(acc as i32)
    }
}

/// Finds the bounds of `s` between `from` and `to` after trimming the
/// whitespace of [`spec_is_ws`] on both sides.
#[verifier::loop_isolation(false)]
fn trimmed_range(s: &str, from: usize, to: usize) -> (r: (usize, usize))
    requires
        from <= to <= s@.len(),
    ensures
        from <= r.0 <= r.1 <= to,
        spec_trimmed(s@.subrange(from as int, to as int)) == s@.subrange(r.0 as int, r.1 as int),
{
    let mut a: usize = from;
    proof {
        assert(s@.subrange(from as int, to as int).skip(0) =~= s@.subrange(from as int, to as int));
        assert(spec_drop_ws_front(s@.subrange(from as int, to as int)) == spec_drop_ws_front(
            s@.subrange(a as int, to as int),
        ));
    }
    while a < to && is_ws(s.get_char(a))
        invariant
            from <= a <= to,
            spec_drop_ws_front(s@.subrange(from as int, to as int)) == spec_drop_ws_front(
                s@.subrange(a as int, to as int),
            ),
        decreases to - a,
    {
        proof {
            assert(s@.subrange(a as int, to as int)[0] == s@[a as int]);
            assert(s@.subrange(a as int, to as int).skip(1) =~= s@.subrange(
                a as int + 1,
                to as int,
            ));
        }
        a += 1;
    }
    proof {
        if a < to {
            assert(s@.subrange(a as int, to as int)[0] == s@[a as int]);
        }
        assert(spec_drop_ws_front(s@.subrange(from as int, to as int)) == s@.subrange(
            a as int,
            to as int,
        ));
    }

    let mut b: usize = to;
    while b > a && is_ws(s.get_char(b - 1))
        invariant
            a <= b <= to,
            spec_drop_ws_back(s@.subrange(a as int, to as int)) == spec_drop_ws_back(
                s@.subrange(a as int, b as int),
            ),
        decreases b,
    {
        proof {
            assert(s@.subrange(a as int, b as int).last() == s@[b - 1]);
            assert(s@.subrange(a as int, b as int).drop_last() =~= s@.subrange(
                a as int,
                b as int - 1,
            ));
        }
        b -= 1;
    }
    proof {
        if b > a {
            assert(s@.subrange(a as int, b as int).last() == s@[b - 1]);
        }
        assert(spec_trimmed(s@.subrange(from as int, to as int)) == s@.subrange(
            a as int,
            b as int,
        ));
    }
    (a, b)
}

/// The bytes after percent-decoding: every `%` followed by two hexadecimal
/// digits becomes the coded byte; anything else passes through unchanged.
pub open spec fn spec_hex_val(b: u8) -> Option<int> {
    if 0x30 <= b <= 0x39 {
        Option::Some(b as int - 0x30)
    } else if 0x41 <= b <= 0x46 {
        Option::Some(b as int - 0x37)
    } else if 0x61 <= b <= 0x66 {
        Option::Some(b as int - 0x57)
    } else {
        Option::None
    }
}

/// Percent-decoding of a byte sequence, as the URL standard defines it.
pub open spec fn spec_percent_decode(s: Seq<u8>) -> Seq<u8>
    decreases s.len(),
{
    if s.len() == 0 {
        Seq::empty()
    } else if s[0] == 0x25 && s.len() >= 3 && spec_hex_val(s[1]) is Some && spec_hex_val(
        s[2],
    ) is Some {
        seq![(spec_hex_val(s[1])->Some_0 * 16 + spec_hex_val(s[2])->Some_0) as u8]
            + spec_percent_decode(s.skip(3))
    } else {
        seq![s[0]] + spec_percent_decode(s.skip(1))
    }
}

/// Relies on percent_encoding::percent_decode and its decode_utf8: every `%`
/// followed by two hexadecimal digits is decoded to the coded byte, every
/// other byte passes through, and the result is `None` exactly when the
/// decoded bytes are not valid UTF-8.
#[verifier::external_body]
fn percent_decode_utf8(value: &str) -> (r: Option<String>)
    ensures
        match r {
            Option::Some(s) => vstd::utf8::valid_utf8(
                spec_percent_decode(vstd::utf8::encode_utf8(value@)),
            ) && s@ == vstd::utf8::decode_utf8(
                spec_percent_decode(vstd::utf8::encode_utf8(value@)),
            ),
            Option::None => !vstd::utf8::valid_utf8(
                spec_percent_decode(vstd::utf8::encode_utf8(value@)),
            ),
        },
{
    percent_encoding::percent_decode(value.as_bytes())
        .decode_utf8()
        .ok()
        .map(|decoded| decoded.into_owned())
}

/// What one `name=value` cookie segment decides: `Some(result)` ends the
/// scan (a segment without `=` is a format error, a matching name yields its
/// percent-decoded value or fails on bad UTF-8), `None` passes on to the
/// next segment.
pub open spec fn spec_cookie_segment(seg: Seq<char>, name: Seq<char>) -> Option<
    Option<Seq<char>>,
> {
    let e = crate::apt_repository::spec_find(seg, '=');
    if e == seg.len() {
        Option::Some(Option::None)
    } else {
        let n = spec_trimmed(seg.take(e));
        let v = spec_trimmed(seg.skip(e + 1));
        if n == name {
            let decoded = spec_percent_decode(vstd::utf8::encode_utf8(v));
            if vstd::utf8::valid_utf8(decoded) {
                Option::Some(Option::Some(vstd::utf8::decode_utf8(decoded)))
            } else {
                Option::Some(Option::None)
            }
        } else {
            Option::None
        }
    }
}

/// Scans the cookie header from position `i`, `cur` being the partial
/// segment read so far: at each `;` (and at the end) the finished segment
/// decides per [`spec_cookie_segment`].
pub open spec fn spec_cookie_scan(
    c: Seq<char>,
    i: int,
    cur: Seq<char>,
    name: Seq<char>,
) -> Option<Seq<char>>
    decreases c.len() - i,
{
    if i < 0 || i >= c.len() {
        match spec_cookie_segment(cur, name) {
            Option::Some(result) => result,
            Option::None => Option::None,
        }
    } else if c[i] == ';' {
        match spec_cookie_segment(cur, name) {
            Option::Some(result) => result,
            Option::None => spec_cookie_scan(c, i + 1, Seq::empty(), name),
        }
    } else {
        spec_cookie_scan(c, i + 1, cur.push(c[i]), name)
    }
}

/// The value of the named cookie in a cookie header, percent-decoded:
/// segments are separated by `;`, names and values trimmed of whitespace;
/// a segment without `=` or a value that does not decode to UTF-8 ends the
/// search empty-handed.
pub open spec fn spec_extract_cookie(cookie: Seq<char>, name: Seq<char>) -> Option<Seq<char>> {
    spec_cookie_scan(cookie, 0, Seq::empty(), name)
}

/// Extract a specific cookie from cookie header.
/// We assume cookie_name is already url encoded.
#[verifier::loop_isolation(false)]
#[verifier::rlimit(100)]
#[verifier::spinoff_prover]
pub fn extract_cookie(cookie: &str, cookie_name: &str) -> (r: Option<String>)
    ensures
        r matches Some(v) ==> spec_extract_cookie(cookie@, cookie_name@) == Option::Some(v@),
        r is None ==> spec_extract_cookie(cookie@, cookie_name@) is None,
{
    let n = cookie.unicode_len();
    let mut start: usize = 0;

    loop
        invariant
            0 <= start <= n,
            n == cookie@.len(),
            spec_extract_cookie(cookie@, cookie_name@) == spec_cookie_scan(
                cookie@,
                start as int,
                Seq::empty(),
                cookie_name@,
            ),
        decreases n - start,
    {
        // scan the current segment
        let j = crate::apt_repository::find_char_in(cookie, start, n, ';');
        let ghost seg = cookie@.subrange(start as int, j as int);
        proof {
            lemma_cookie_scan_segment(cookie@, start as int, j as int, cookie_name@);
        }

        // the segment decides, or the scan moves on
        let e = crate::apt_repository::find_char_in(cookie, start, j, '=');
        proof {
            assert(crate::apt_repository::spec_find(seg, '=') == e - start);
        }
        if e == j {
            proof {
                assert(spec_cookie_segment(seg, cookie_name@) == Option::Some(
                    Option::<Seq<char>>::None,
                ));
            }
            return None;
        }

        let (n0, n1) = trimmed_range(cookie, start, e);
        let (v0, v1) = trimmed_range(cookie, e + 1, j);
        proof {
            assert(seg.take(e - start) =~= cookie@.subrange(start as int, e as int));
            assert(seg.skip(e - start + 1) =~= cookie@.subrange(e as int + 1, j as int));
        }

        let name_part = cookie.substring_char(n0, n1);
        if crate::digits::str_eq(name_part, cookie_name) {
            let value_part = cookie.substring_char(v0, v1);
            return percent_decode_utf8(value_part);
        }
        proof {
            assert(spec_cookie_segment(seg, cookie_name@) is None);
        }

        if j == n {
            return None;
        }
        start = j + 1;
    }
}

/// Scanning from a segment's start is deciding that segment: the characters
/// up to the next `;` (at `j`) accumulate, and the segment's verdict either
/// ends the scan or passes it past the separator.
proof fn lemma_cookie_scan_segment(c: Seq<char>, start: int, j: int, name: Seq<char>)
    requires
        0 <= start <= j <= c.len(),
        forall|k: int| start <= k < j ==> c[k] != ';',
        j < c.len() ==> c[j] == ';',
    ensures
        spec_cookie_scan(c, start, Seq::empty(), name) == ({
            let seg = c.subrange(start, j);
            match spec_cookie_segment(seg, name) {
                Option::Some(result) => result,
                Option::None => if j < c.len() {
                    spec_cookie_scan(c, j + 1, Seq::empty(), name)
                } else {
                    Option::None
                },
            }
        }),
{
    lemma_cookie_scan_accumulate(c, start, start, j, name);
    assert(c.subrange(start, start) =~= Seq::<char>::empty());
}

/// The accumulator of the cookie scan holds exactly the characters already
/// passed within the current segment.
proof fn lemma_cookie_scan_accumulate(c: Seq<char>, start: int, i: int, j: int, name: Seq<char>)
    requires
        0 <= start <= i <= j <= c.len(),
        forall|k: int| i <= k < j ==> c[k] != ';',
        j < c.len() ==> c[j] == ';',
    ensures
        spec_cookie_scan(c, i, c.subrange(start, i), name) == ({
            let seg = c.subrange(start, j);
            match spec_cookie_segment(seg, name) {
                Option::Some(result) => result,
                Option::None => if j < c.len() {
                    spec_cookie_scan(c, j + 1, Seq::empty(), name)
                } else {
                    Option::None
                },
            }
        }),
    decreases j - i,
{
    if i == j {
        assert(c.subrange(start, i) =~= c.subrange(start, j));
    } else {
        assert(c.subrange(start, i).push(c[i]) =~= c.subrange(start, i + 1));
        lemma_cookie_scan_accumulate(c, start, i + 1, j, name);
    }
}

/// The nonempty `/`-separated components of a path, scanned from position
/// `i` with `cur` the partial component read so far.
pub open spec fn spec_split_from(path: Seq<char>, i: int, cur: Seq<char>) -> Seq<Seq<char>>
    decreases path.len() - i,
{
    if i < 0 || i >= path.len() {
        if cur.len() > 0 {
            seq![cur]
        } else {
            seq![]
        }
    } else if path[i] == '/' {
        if cur.len() > 0 {
            seq![cur] + spec_split_from(path, i + 1, Seq::empty())
        } else {
            spec_split_from(path, i + 1, Seq::empty())
        }
    } else {
        spec_split_from(path, i + 1, cur.push(path[i]))
    }
}

/// The nonempty `/`-separated components of a path, in order.
pub open spec fn spec_path_components(path: Seq<char>) -> Seq<Seq<char>> {
    spec_split_from(path, 0, Seq::empty())
}

/// The normalized form of a component list: each component preceded by one
/// slash.
pub open spec fn spec_joined(components: Seq<Seq<char>>) -> Seq<char>
    decreases components.len(),
{
    if components.len() == 0 {
        Seq::empty()
    } else {
        seq!['/'] + components[0] + spec_joined(components.skip(1))
    }
}

/// Appending a component to the list appends one slash and the component to
/// the normalized form.
proof fn lemma_joined_push(components: Seq<Seq<char>>, c: Seq<char>)
    ensures
        spec_joined(components.push(c)) == spec_joined(components) + seq!['/'] + c,
    decreases components.len(),
{
    if components.len() == 0 {
        assert(components.push(c).skip(1) =~= Seq::<Seq<char>>::empty());
        assert(spec_joined(Seq::<Seq<char>>::empty()) =~= Seq::<char>::empty());
        assert(spec_joined(components.push(c)) =~= spec_joined(components) + seq!['/'] + c);
    } else {
        assert(components.push(c).skip(1) =~= components.skip(1).push(c));
        lemma_joined_push(components.skip(1), c);
        assert(spec_joined(components.push(c)) =~= spec_joined(components) + seq!['/'] + c);
    }
}

/// While a component is being scanned, its first characters are the `cur`
/// accumulator: the splitter's next component extends `cur`.
proof fn lemma_split_first(path: Seq<char>, i: int, cur: Seq<char>)
    requires
        0 <= i <= path.len(),
        cur.len() > 0 || (i < path.len() && path[i] != '/'),
    ensures
        spec_split_from(path, i, cur).len() >= 1,
        spec_split_from(path, i, cur)[0].len() >= cur.len(),
        spec_split_from(path, i, cur)[0].take(cur.len() as int) == cur,
    decreases path.len() - i,
{
    if i >= path.len() {
        assert(spec_split_from(path, i, cur)[0] == cur);
        assert(cur.take(cur.len() as int) =~= cur);
    } else if path[i] == '/' {
        assert(spec_split_from(path, i, cur)[0] == cur);
        assert(cur.take(cur.len() as int) =~= cur);
    } else {
        lemma_split_first(path, i + 1, cur.push(path[i]));
        let first = spec_split_from(path, i, cur)[0];
        assert(first.take(cur.push(path[i]).len() as int) == cur.push(path[i]));
        assert(first.take(cur.len() as int) =~= cur) by {
            assert forall|j: int| 0 <= j < cur.len() implies first.take(cur.len() as int)[j]
                == cur[j] by {
                assert(first[j] == first.take(cur.push(path[i]).len() as int)[j]);
                assert(first[j] == cur.push(path[i])[j]);
            }
        }
    }
}

/// normalize uri path
///
/// Do not allow ".", "..", or hidden files ".XXXX"
/// Also remove empty path components
///
/// Returns the normalized path, one leading slash per component, together
/// with the component list.
#[verifier::loop_isolation(false)]
#[verifier::rlimit(50)]
pub fn normalize_uri_path(path: &str) -> (r: Result<(String, Vec<String>), ServerError>)
    ensures
        r is Err <==> exists|k: int|
            0 <= k < spec_path_components(path@).len() && spec_path_components(path@)[k][0] == '.',
        r matches Ok((p, components)) ==> p@ == spec_joined(spec_path_components(path@))
            && components@.map_values(|c: String| c@) == spec_path_components(path@),
        r matches Err(e) ==> e.message@ == "Path contains illegal components."@,
{
    let n = path.unicode_len();
    let mut i: usize = 0;
    let mut out = String::new();
    let mut components: Vec<String> = Vec::new();

    proof {
        assert(components@.map_values(|c: String| c@) =~= Seq::<Seq<char>>::empty());
        assert(spec_path_components(path@) =~= components@.map_values(|c: String| c@)
            + spec_split_from(path@, 0, Seq::empty()));
        reveal_strlit("/");
        assert("/"@ =~= seq!['/']);
    }

    while i < n
        invariant
            0 <= i <= n,
            n == path@.len(),
            "/"@ == seq!['/'],
            spec_path_components(path@) == components@.map_values(|c: String| c@)
                + spec_split_from(path@, i as int, Seq::empty()),
            out@ == spec_joined(components@.map_values(|c: String| c@)),
            forall|k: int| #![auto] 0 <= k < components@.len() ==> components@[k]@.len() > 0
                && components@[k]@[0] != '.',
        decreases n - i,
    {
        let c = path.get_char(i);
        if c == '/' {
            i += 1;
            continue ;
        }
        if c == '.' {
            proof {
                lemma_split_first(path@, i as int, Seq::empty());
                let comps = components@.map_values(|c: String| c@);
                let rest = spec_split_from(path@, i as int, Seq::empty());
                assert(rest[0][0] == '.') by {
                    assert(spec_split_from(path@, i as int, Seq::empty()) == spec_split_from(
                        path@,
                        i as int + 1,
                        seq![path@[i as int]],
                    ));
                    lemma_split_first(path@, i as int + 1, seq![path@[i as int]]);
                    assert(rest[0].len() >= 1);
                    assert(rest[0].take(1) == seq![path@[i as int]]);
                    assert(rest[0].take(1)[0] == rest[0][0]);
                }
                assert(spec_path_components(path@)[comps.len() as int][0] == '.');
            }
            return Err(ServerError { message: "Path contains illegal components.".to_owned() });
        }

        let mut j: usize = i;
        proof {
            assert(path@.subrange(i as int, i as int) =~= Seq::<char>::empty());
        }
        while j < n && path.get_char(j) != '/'
            invariant
                i <= j <= n,
                spec_split_from(path@, i as int, Seq::empty()) == spec_split_from(
                    path@,
                    j as int,
                    path@.subrange(i as int, j as int),
                ),
            decreases n - j,
        {
            proof {
                assert(path@.subrange(i as int, j as int).push(path@[j as int]) =~= path@.subrange(
                    i as int,
                    j as int + 1,
                ));
            }
            j += 1;
        }

        let ghost comp_chars = path@.subrange(i as int, j as int);
        proof {
            if j < n {
                assert(spec_split_from(path@, j as int, comp_chars) == seq![comp_chars]
                    + spec_split_from(path@, j as int + 1, Seq::empty()));
                assert(spec_split_from(path@, j as int + 1, Seq::empty()) == spec_split_from(
                    path@,
                    j as int,
                    Seq::empty(),
                )) by {
                    assert(spec_split_from(path@, j as int, Seq::empty()) == spec_split_from(
                        path@,
                        j as int + 1,
                        Seq::empty(),
                    ));
                }
            } else {
                assert(spec_split_from(path@, j as int, comp_chars) =~= seq![comp_chars]
                    + spec_split_from(path@, j as int, Seq::empty()));
            }
        }

        let comp = path.substring_char(i, j);
        let ghost pre_comps = components@.map_values(|c: String| c@);
        out.append("/");
        out.append(comp);
        components.push(comp.to_owned());

        proof {
            assert(components@.map_values(|c: String| c@) =~= pre_comps.push(comp@));
            lemma_joined_push(pre_comps, comp@);
            assert(out@ =~= spec_joined(components@.map_values(|c: String| c@)));
            assert(spec_path_components(path@) =~= components@.map_values(|c: String| c@)
                + spec_split_from(path@, j as int, Seq::empty()));
        }
        i = j;
    }
    proof {
        assert(spec_split_from(path@, n as int, Seq::empty()) =~= Seq::<Seq<char>>::empty());
        assert(components@.map_values(|c: String| c@) =~= spec_path_components(path@));
        assert forall|k: int| 0 <= k < spec_path_components(path@).len()
            implies spec_path_components(path@)[k][0] != '.' by {
            assert(spec_path_components(path@)[k] == components@[k]@);
        }
    }
    Ok((out, components))
}

/// What a PID file holds: the process ID in decimal and a newline.
pub fn pid_file_contents(pid: i32) -> (r: String)
    ensures
        r@ == spec_dec_chars(pid as int) + "\n"@,
{
    let mut s = i64_dec_string(pid as i64);
    s.append("\n");
    s
}

} // verus!
