use crate::text::{copy_range, find_byte, holds_from, is_first_at, split_on, split_spec};
use vstd::prelude::*;
use vstd::slice::slice_subrange;

verus! {

/// Why a connection could not be set up.
#[derive(Debug, Clone, Copy, PartialEq, Eq, Structural)]
pub enum AddressError {
    /// The upstream proxy refused or failed its handshake.
    CommError,
    /// The client closed before sending a request.
    ConnectClosed,
    /// The first bytes hold no complete request line.
    EmptyCommand,
    /// The request's method is neither `CONNECT` nor `GET`.
    UnknownCommand,
    /// The request line or its absolute URI is malformed.
    UnknownFormat,
    /// A transport operation failed.
    IoError,
}

/// The text that describes an error.
pub open spec fn error_message(e: AddressError) -> Seq<char> {
    match e {
        AddressError::CommError => "connect proxy socks error."@,
        AddressError::ConnectClosed => "connect closed."@,
        AddressError::EmptyCommand => "empty command."@,
        AddressError::UnknownCommand => "unknown command."@,
        AddressError::UnknownFormat => "unknown format."@,
        AddressError::IoError => "io error."@,
    }
}

impl AddressError {
    /// The text that describes this error.
    pub fn message(&self) -> (r: &'static str)
        ensures
            r@ == error_message(*self),
    {
        match self {
            AddressError::CommError => "connect proxy socks error.",
            AddressError::ConnectClosed => "connect closed.",
            AddressError::EmptyCommand => "empty command.",
            AddressError::UnknownCommand => "unknown command.",
            AddressError::UnknownFormat => "unknown format.",
            AddressError::IoError => "io error.",
        }
    }
}

/// How the client expects its traffic to be carried.
#[derive(Debug, Clone, Copy, PartialEq, Eq, Structural)]
pub enum ProxyMode {
    /// `CONNECT`: an opaque byte tunnel after a success reply.
    Tunnel,
    /// An absolute-form request, forwarded in origin form without a reply.
    Rewrite,
}

/// What the first bytes of a connection ask for.
pub struct Sniffed {
    pub mode: ProxyMode,
    /// `host:port`, with port 80 when the request named none.
    pub destination: Vec<u8>,
    /// The bytes read after the request line.
    pub leftover: Vec<u8>,
    /// What goes to the destination before anything else: the request in
    /// origin form followed by the leftover bytes, or nothing for a tunnel.
    pub request: Vec<u8>,
}

/// The ASCII upper case of `b`.
pub open spec fn upper(b: u8) -> u8 {
    if 'a' as u8 <= b <= 'z' as u8 {
        (b - 32) as u8
    } else {
        b
    }
}

/// Whether `a` and `b` are equal up to ASCII case.
pub open spec fn eq_ignore_case(a: Seq<u8>, b: Seq<u8>) -> bool {
    a.len() == b.len() && forall|i: int| 0 <= i < a.len() ==> upper(a[i]) == upper(b[i])
}

pub open spec fn connect_word() -> Seq<u8> {
    seq!['C' as u8, 'O' as u8, 'N' as u8, 'N' as u8, 'E' as u8, 'C' as u8, 'T' as u8]
}

pub open spec fn get_word() -> Seq<u8> {
    seq!['G' as u8, 'E' as u8, 'T' as u8]
}

/// `d`, with `:80` appended when it holds no `:`.
pub open spec fn with_default_port(d: Seq<u8>) -> Seq<u8> {
    if d.contains(':' as u8) {
        d
    } else {
        d + seq![':' as u8, '8' as u8, '0' as u8]
    }
}

/// The length of the first line of `data`, its `\n` included.
pub open spec fn line_len(data: Seq<u8>) -> int {
    (choose|i: int| #[trigger] is_first_at(data, 0, '\n' as u8, i)) + 1
}

/// The space-separated tokens of the first line of `data`.
pub open spec fn line_tokens(data: Seq<u8>) -> Seq<Seq<u8>> {
    split_spec(data.subrange(0, line_len(data)), ' ' as u8)
}

/// Whether `//` occurs in `t` at `i`.
pub open spec fn is_marker_at(t: Seq<u8>, i: int) -> bool {
    0 <= i && i + 1 < t.len() && t[i] == '/' as u8 && t[i + 1] == '/' as u8
}

/// Whether `i` is where `//` first occurs in `t`.
pub open spec fn is_first_marker(t: Seq<u8>, i: int) -> bool {
    is_marker_at(t, i) && forall|j: int| 0 <= j < i ==> !#[trigger] is_marker_at(t, j)
}

/// The host and the path of an absolute URI: what lies between the first
/// `//` and the next `/`, and the rest from that `/` on.
pub open spec fn url_parts(t: Seq<u8>) -> Option<(Seq<u8>, Seq<u8>)> {
    if exists|i: int| #[trigger] is_first_marker(t, i) {
        let n = choose|i: int| #[trigger] is_first_marker(t, i);
        if holds_from(t, n + 2, '/' as u8) {
            let m = choose|j: int| #[trigger] is_first_at(t, n + 2, '/' as u8, j);
            Some((t.subrange(n + 2, m), t.subrange(m, t.len() as int)))
        } else {
            None
        }
    } else {
        None
    }
}

/// The request in origin form: `GET <path> <version>` and the bytes after
/// the request line.
pub open spec fn origin_request(path: Seq<u8>, version: Seq<u8>, rest: Seq<u8>) -> Seq<u8> {
    get_word() + seq![' ' as u8] + path + seq![' ' as u8] + version + rest
}

/// What the first bytes of a connection ask for: the mode, the
/// destination and the bytes to send it first.
pub open spec fn sniff_spec(data: Seq<u8>) -> Result<(ProxyMode, Seq<u8>, Seq<u8>), AddressError> {
    if data.len() == 0 {
        Err(AddressError::ConnectClosed)
    } else if !holds_from(data, 0, '\n' as u8) {
        Err(AddressError::EmptyCommand)
    } else {
        let tk = line_tokens(data);
        if tk.len() < 3 {
            Err(AddressError::UnknownFormat)
        } else if eq_ignore_case(tk[0], connect_word()) {
            Ok((ProxyMode::Tunnel, with_default_port(tk[1]), Seq::empty()))
        } else if eq_ignore_case(tk[0], get_word()) {
            match url_parts(tk[1]) {
                None => Err(AddressError::UnknownFormat),
                Some(parts) => Ok(
                    (
                        ProxyMode::Rewrite,
                        with_default_port(parts.0),
                        origin_request(
                            parts.1,
                            tk[2],
                            data.subrange(line_len(data), data.len() as int),
                        ),
                    ),
                ),
            }
        } else {
            Err(AddressError::UnknownCommand)
        }
    }
}

fn upper_exec(b: u8) -> (r: u8)
    ensures
        r == upper(b),
{
    if 'a' as u8 <= b && b <= 'z' as u8 {
        b - 32
    } else {
        b
    }
}

/// Whether `a` and `b` are equal up to ASCII case.
pub fn ascii_eq_ignore_case(a: &[u8], b: &[u8]) -> (r: bool)
    ensures
        r == eq_ignore_case(a@, b@),
{
    if a.len() != b.len() {
        return false;
    }
    let mut i: usize = 0;
    while i < a.len()
        invariant
            i <= a@.len(),
            a@.len() == b@.len(),
            forall|j: int| 0 <= j < i ==> upper(a@[j]) == upper(b@[j]),
        decreases a.len() - i,
    {
        if upper_exec(a[i]) != upper_exec(b[i]) {
            return false;
        }
        i = i + 1;
    }
    true
}

fn connect_bytes() -> (r: Vec<u8>)
    ensures
        r@ == connect_word(),
{
    let r = vec!['C' as u8, 'O' as u8, 'N' as u8, 'N' as u8, 'E' as u8, 'C' as u8, 'T' as u8];
    assert(r@ =~= connect_word());
    r
}

fn get_bytes() -> (r: Vec<u8>)
    ensures
        r@ == get_word(),
{
    let r = vec!['G' as u8, 'E' as u8, 'T' as u8];
    assert(r@ =~= get_word());
    r
}

/// `d`, with `:80` appended when it holds no `:`.
pub fn default_port(d: &[u8]) -> (r: Vec<u8>)
    ensures
        r@ == with_default_port(d@),
{
    let mut r = copy_range(d, 0, d.len());
    assert(d@.subrange(0, d@.len() as int) =~= d@);
    match find_byte(d, 0, ':' as u8) {
        Some(i) => {
            assert(d@[i as int] == ':' as u8);
            assert(d@.contains(':' as u8));
        },
        None => {
            r.push(':' as u8);
            r.push('8' as u8);
            r.push('0' as u8);
            assert(r@ =~= d@ + seq![':' as u8, '8' as u8, '0' as u8]);
        },
    }
    r
}

/// Where `//` first occurs in `t`.
fn find_marker(t: &[u8]) -> (r: Option<usize>)
    ensures
        match r {
            Some(i) => is_first_marker(t@, i as int),
            None => !exists|i: int| is_first_marker(t@, i),
        },
{
    let mut i: usize = 0;
    while t.len() > 1 && i < t.len() - 1
        invariant
            forall|j: int| 0 <= j < i ==> !#[trigger] is_marker_at(t@, j),
        decreases t.len() - i,
    {
        if t[i] == '/' as u8 && t[i + 1] == '/' as u8 {
            return Some(i);
        }
        i = i + 1;
    }
    None
}

/// The host and the path of an absolute URI.
pub fn split_url(t: &[u8]) -> (r: Option<(Vec<u8>, Vec<u8>)>)
    ensures
        match r {
            Some(p) => url_parts(t@) == Some((p.0@, p.1@)),
            None => url_parts(t@) is None,
        },
{
    match find_marker(t) {
        None => None,
        Some(n) => {
            assert(is_marker_at(t@, n as int));
            assert(n + 2 <= t.len());
            assert(forall|i: int| #[trigger] is_first_marker(t@, i) ==> i == n);
            match find_byte(t, n + 2, '/' as u8) {
                None => None,
                Some(m) => {
                    assert(forall|j: int| #[trigger] is_first_at(t@, n + 2, '/' as u8, j) ==> j == m);
                    Some((copy_range(t, n + 2, m), copy_range(t, m, t.len())))
                },
            }
        },
    }
}

/// Appends what `s` holds to `v`.
fn extend(v: &mut Vec<u8>, s: &[u8])
    ensures
        final(v)@ == old(v)@ + s@,
{
    let mut tail = copy_range(s, 0, s.len());
    assert(s@.subrange(0, s@.len() as int) =~= s@);
    v.append(&mut tail);
}

/// Reads the request at the start of a connection: its mode, its
/// destination, the bytes after its first line, and what to send the
/// destination first.
pub fn sniff(data: &[u8]) -> (r: Result<Sniffed, AddressError>)
    ensures
        match r {
            Ok(s) => sniff_spec(data@) == Ok::<_, AddressError>(
                (s.mode, s.destination@, s.request@),
            ) && s.leftover@ == data@.subrange(line_len(data@), data@.len() as int),
            Err(e) => sniff_spec(data@) == Err::<(ProxyMode, Seq<u8>, Seq<u8>), _>(e),
        },
{
    if data.len() == 0 {
        return Err(AddressError::ConnectClosed);
    }
    let nl = match find_byte(data, 0, '\n' as u8) {
        None => {
            return Err(AddressError::EmptyCommand);
        },
        Some(i) => i,
    };
    assert(forall|i: int| #[trigger] is_first_at(data@, 0, '\n' as u8, i) ==> i == nl);
    assert(line_len(data@) == nl + 1);
    let line_end = nl + 1;
    let tokens = split_on(slice_subrange(data, 0, line_end), ' ' as u8);
    if tokens.len() < 3 {
        return Err(AddressError::UnknownFormat);
    }
    let leftover = copy_range(data, line_end, data.len());
    if ascii_eq_ignore_case(&tokens[0], &connect_bytes()) {
        let destination = default_port(&tokens[1]);
        Ok(Sniffed { mode: ProxyMode::Tunnel, destination, leftover, request: Vec::new() })
    } else if ascii_eq_ignore_case(&tokens[0], &get_bytes()) {
        match split_url(&tokens[1]) {
            None => Err(AddressError::UnknownFormat),
            Some(parts) => {
                let destination = default_port(&parts.0);
                let mut request = get_bytes();
                request.push(' ' as u8);
                extend(&mut request, &parts.1);
                request.push(' ' as u8);
                extend(&mut request, &tokens[2]);
                extend(&mut request, &leftover);
                assert(request@ =~= origin_request(
                    parts.1@,
                    tokens[2]@,
                    data@.subrange(line_len(data@), data@.len() as int),
                ));
                Ok(Sniffed { mode: ProxyMode::Rewrite, destination, leftover, request })
            },
        }
    } else {
        Err(AddressError::UnknownCommand)
    }
}

/// A sniffed destination always carries a port: the one the request gave,
/// or 80 appended to a bare host.
pub proof fn lemma_default_port(d: Seq<u8>)
    ensures
        with_default_port(d).contains(':' as u8),
        d.contains(':' as u8) ==> with_default_port(d) == d,
        !d.contains(':' as u8) ==> with_default_port(d) == d + seq![
            ':' as u8,
            '8' as u8,
            '0' as u8,
        ],
{
    if !d.contains(':' as u8) {
        let r = d + seq![':' as u8, '8' as u8, '0' as u8];
        assert(r[d.len() as int] == ':' as u8);
    }
}

/// Every request that sniffs successfully has a destination with a port.
pub proof fn lemma_sniffed_destination_has_port(data: Seq<u8>)
    requires
        sniff_spec(data) is Ok,
    ensures
        sniff_spec(data)->Ok_0.1.contains(':' as u8),
{
    let tk = line_tokens(data);
    if eq_ignore_case(tk[0], connect_word()) {
        lemma_default_port(tk[1]);
    } else {
        lemma_default_port(url_parts(tk[1])->Some_0.0);
    }
}

} // verus!
