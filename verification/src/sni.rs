use vstd::prelude::*;
use vstd::string::*;
use vstd::utf8::*;

verus! {

broadcast use vstd::utf8::group_utf8_lib;

/// The big-endian 16-bit number stored at `d[i]`, `d[i + 1]`.
pub open spec fn be16(d: Seq<u8>, i: int) -> int {
    d[i] as int * 256 + d[i + 1] as int
}

/// A character allowed in a server name: ASCII letters and digits, '.', '-' and '_'.
pub open spec fn hostname_char(c: char) -> bool {
    ||| ('a' <= c && c <= 'z')
    ||| ('A' <= c && c <= 'Z')
    ||| ('0' <= c && c <= '9')
    ||| c == '.'
    ||| c == '-'
    ||| c == '_'
}

/// A server name accepted from a ClientHello: not empty, at most 253 bytes long,
/// made of allowed characters only, and neither starting nor ending with '.'.
pub open spec fn valid_hostname(h: Seq<char>) -> bool {
    &&& h.len() != 0
    &&& encode_utf8(h).len() <= 253
    &&& forall|i: int| 0 <= i < h.len() ==> hostname_char(#[trigger] h[i])
    &&& h[0] != '.'
    &&& h[h.len() - 1] != '.'
}

/// The name stored in `d[start..start + len]`, if those bytes are UTF-8 and the
/// text is a valid server name.
pub open spec fn hostname_in(d: Seq<u8>, start: int, len: int) -> Option<Seq<char>> {
    let bytes = d.subrange(start, start + len);
    if valid_utf8(bytes) && valid_hostname(decode_utf8(bytes)) {
        Some(decode_utf8(bytes))
    } else {
        None
    }
}

/// Scanning the server-name list of an SNI extension that occupies `d[..end]`
/// (positions relative to `base`), from the entry at `off`, up to `limit`:
/// the first entry of type 0 whose name is valid.
pub open spec fn scan_server_names(d: Seq<u8>, base: int, end: int, off: int, limit: int) -> Option<Seq<char>>
    decreases end - base - off,
{
    if off + 3 <= limit && off + 3 <= end - base && 0 <= off {
        let name_type = d[base + off];
        let name_len = be16(d, base + off + 1);
        let start = off + 3;
        if start + name_len > end - base {
            None
        } else if name_type == 0 && hostname_in(d, base + start, name_len) is Some {
            hostname_in(d, base + start, name_len)
        } else {
            scan_server_names(d, base, end, start + name_len, limit)
        }
    } else {
        None
    }
}

/// The server name carried by an SNI extension whose data is `d[base..end]`.
pub open spec fn sni_in_extension(d: Seq<u8>, base: int, end: int) -> Option<Seq<char>> {
    if end - base < 5 {
        None
    } else {
        let list_len = be16(d, base);
        if list_len + 2 > end - base {
            None
        } else {
            scan_server_names(d, base, end, 2, list_len + 2)
        }
    }
}

/// Scanning the extensions of a ClientHello from `off`: the first SNI extension
/// (type 0) that carries a valid server name.  Extensions are read while a full
/// extension header fits before `end`; an extension whose data runs past the end
/// of the message stops the scan.
pub open spec fn scan_extensions(d: Seq<u8>, off: int, end: int) -> Option<Seq<char>>
    decreases d.len() - off,
{
    if off + 4 <= end && off + 4 <= d.len() && 0 <= off {
        let ext_type = be16(d, off);
        let ext_len = be16(d, off + 2);
        let start = off + 4;
        if start + ext_len > d.len() {
            None
        } else if ext_type == 0 && sni_in_extension(d, start, start + ext_len) is Some {
            sni_in_extension(d, start, start + ext_len)
        } else {
            scan_extensions(d, start + ext_len, end)
        }
    } else {
        None
    }
}

/// The server name that a TLS record holding a ClientHello carries.
///
/// The record must be a handshake record (0x16) of version 3.x whose first
/// handshake message is a ClientHello (0x01), and must be complete.  The session
/// id, cipher suites and compression methods that follow the 43 fixed bytes are
/// skipped, and the extensions are scanned.
pub open spec fn sni_of_client_hello(d: Seq<u8>) -> Option<Seq<char>> {
    if d.len() < 43 || d[0] != 0x16 || d[1] != 0x03 || d[5] != 0x01 || d.len() < 5 + be16(d, 3)
        || d.len() <= 43 {
        None
    } else {
        let after_session = 44 + d[43] as int;
        if after_session + 2 > d.len() {
            None
        } else {
            let after_suites = after_session + 2 + be16(d, after_session);
            if after_suites >= d.len() {
                None
            } else {
                let after_compression = after_suites + 1 + d[after_suites] as int;
                if after_compression + 2 > d.len() {
                    None
                } else {
                    let ext_len = be16(d, after_compression);
                    let ext_start = after_compression + 2;
                    if ext_start + ext_len > d.len() {
                        None
                    } else {
                        scan_extensions(d, ext_start, ext_start + ext_len)
                    }
                }
            }
        }
    }
}

/// Decodes `data[start..end]` as UTF-8 (std's `String::from_utf8`): a string
/// exactly when the bytes are valid UTF-8, holding the characters they encode.
#[verifier::external_body]
fn utf8_string(data: &[u8], start: usize, end: usize) -> (r: Option<String>)
    requires
        start <= end <= data@.len(),
    ensures
        r is Some <==> valid_utf8(data@.subrange(start as int, end as int)),
        r matches Some(s) ==> s@ == decode_utf8(data@.subrange(start as int, end as int)),
{
    String::from_utf8(data[start..end].to_vec()).ok()
}

/// Reads the big-endian 16-bit number at `data[i]`.
fn read_be16(data: &[u8], i: usize) -> (r: usize)
    requires
        i + 1 < data@.len(),
    ensures
        r as int == be16(data@, i as int),
        r < 65536,
{
    (data[i] as usize) * 256 + (data[i + 1] as usize)
}

/// Tracks the server name found in TLS ClientHello messages.
pub struct SniExtractor {
    hostname: Option<String>,
}

/// The characters of an optional string.
pub open spec fn opt_text(o: Option<String>) -> Option<Seq<char>> {
    match o {
        Some(s) => Some(s@),
        None => None,
    }
}

impl SniExtractor {
    /// The last server name that was extracted.
    pub closed spec fn last_hostname(self) -> Option<Seq<char>> {
        opt_text(self.hostname)
    }

    /// An extractor that has not seen a server name yet.
    pub fn new() -> (r: Self)
        ensures
            r.last_hostname() is None,
    {
        SniExtractor { hostname: None }
    }

    /// The server name carried by the ClientHello in `data`, if any.  A name that
    /// is found is also remembered.
    pub fn extract_from_client_hello(&mut self, data: &[u8]) -> (r: Option<String>)
        ensures
            opt_text(r) == sni_of_client_hello(data@),
            final(self).last_hostname() == (if r is Some {
                opt_text(r)
            } else {
                old(self).last_hostname()
            }),
    {
        let len = data.len();
        if len < 43 {
            return None;
        }
        if data[0] != 0x16 {
            return None;
        }
        if data[1] != 0x03 {
            return None;
        }
        if data[5] != 0x01 {
            return None;
        }
        let record_length = read_be16(data, 3);
        if len - 5 < record_length {
            return None;
        }
        let mut offset: usize = 43;
        if offset >= len {
            return None;
        }
        let session_id_len = data[offset] as usize;
        offset = offset + 1 + session_id_len;
        if offset > len || len - offset < 2 {
            return None;
        }
        let cipher_suites_len = read_be16(data, offset);
        if len - offset - 2 <= cipher_suites_len {
            return None;
        }
        offset = offset + 2 + cipher_suites_len;
        let compression_methods_len = data[offset] as usize;
        if compression_methods_len > len - offset - 1 {
            return None;
        }
        offset = offset + 1 + compression_methods_len;
        if len - offset < 2 {
            return None;
        }
        let extensions_len = read_be16(data, offset);
        offset = offset + 2;
        if extensions_len > len - offset {
            return None;
        }
        let extensions_end = offset + extensions_len;
        let ghost ext_end = extensions_end as int;
        assert(sni_of_client_hello(data@) == scan_extensions(data@, offset as int, ext_end));
        while offset <= extensions_end && extensions_end - offset >= 4
            invariant
                extensions_end <= len,
                len == data@.len(),
                offset <= len,
                ext_end == extensions_end,
                sni_of_client_hello(data@) == scan_extensions(data@, offset as int, ext_end),
                self.last_hostname() == old(self).last_hostname(),
            decreases len - offset,
        {
            let ext_type = read_be16(data, offset);
            let ext_len = read_be16(data, offset + 2);
            offset = offset + 4;
            if ext_len > len - offset {
                return None;
            }
            if ext_type == 0 {
                if let Some(hostname) = self.parse_sni_extension(data, offset, offset + ext_len) {
                    return Some(hostname);
                }
            }
            offset = offset + ext_len;
        }
        None
    }

    /// The first valid server name in the SNI extension stored in `data[start..end]`.
    fn parse_sni_extension(&mut self, data: &[u8], start: usize, end: usize) -> (r: Option<String>)
        requires
            start <= end <= data@.len(),
        ensures
            opt_text(r) == sni_in_extension(data@, start as int, end as int),
            final(self).last_hostname() == (if r is Some {
                opt_text(r)
            } else {
                old(self).last_hostname()
            }),
    {
        let len = end - start;
        if len < 5 {
            return None;
        }
        let list_len = read_be16(data, start);
        if list_len + 2 > len {
            return None;
        }
        let limit = list_len + 2;
        let mut offset: usize = 2;
        while offset <= limit && limit - offset >= 3 && len - offset >= 3
            invariant
                start <= end <= data@.len(),
                len == end - start,
                limit <= len,
                offset <= len,
                limit == list_len + 2,
                sni_in_extension(data@, start as int, end as int) == scan_server_names(
                    data@,
                    start as int,
                    end as int,
                    offset as int,
                    limit as int,
                ),
                self.last_hostname() == old(self).last_hostname(),
            decreases len - offset,
        {
            let name_type = data[start + offset];
            let name_len = read_be16(data, start + offset + 1);
            offset = offset + 3;
            if name_len > len - offset {
                return None;
            }
            if name_type == 0 {
                let a = start + offset;
                let b = start + offset + name_len;
                match utf8_string(data, a, b) {
                    Some(hostname) => {
                        if Self::is_valid_hostname(&hostname) {
                            self.hostname = Some(hostname.clone());
                            return Some(hostname);
                        }
                    },
                    None => {},
                }
            }
            offset = offset + name_len;
        }
        None
    }

    /// Whether `hostname` is acceptable as a server name.
    fn is_valid_hostname(hostname: &String) -> (r: bool)
        ensures
            r == valid_hostname(hostname@),
    {
        let s = hostname.as_str();
        if s.is_empty() {
            return false;
        }
        let n = s.unicode_len();
        let mut i: usize = 0;
        while i < n
            invariant
                n == s@.len(),
                s@ == hostname@,
                i <= n,
                forall|j: int| 0 <= j < i ==> hostname_char(#[trigger] s@[j]),
            decreases n - i,
        {
            let c = s.get_char(i);
            let ok = ('a' <= c && c <= 'z') || ('A' <= c && c <= 'Z') || ('0' <= c && c <= '9') || c == '.'
                || c == '-' || c == '_';
            if !ok {
                assert(!hostname_char(s@[i as int]));
                return false;
            }
            assert(hostname_char(s@[i as int]));
            i = i + 1;
        }
        let first = s.get_char(0);
        let last = s.get_char(n - 1);
        assert(is_ascii_chars(hostname@));
        assert(encode_utf8(hostname@).len() == n);
        if n > 253 {
            return false;
        }
        first != '.' && last != '.'
    }

    /// The last server name that was extracted, if any.
    pub fn get_hostname(&self) -> (r: Option<&String>)
        ensures
            r is Some <==> self.last_hostname() is Some,
            r matches Some(h) ==> self.last_hostname() == Some(h@),
    {
        self.hostname.as_ref()
    }
}

/// The latest name in `found`, or `start` when it holds none.
pub open spec fn latest_found(start: Option<Seq<char>>, found: Seq<Option<Seq<char>>>) -> Option<Seq<char>>
    decreases found.len(),
{
    if found.len() == 0 {
        start
    } else if found.last() is Some {
        found.last()
    } else {
        latest_found(start, found.drop_last())
    }
}

/// The server names that the inputs carry, input by input.
pub open spec fn names_carried(inputs: Seq<Seq<u8>>) -> Seq<Option<Seq<char>>> {
    inputs.map_values(|d: Seq<u8>| sni_of_client_hello(d))
}

/// The server name an extractor remembers after being handed `inputs` in
/// turn, starting from `start`: the name of the latest input that carried one,
/// or `start` when none did.
pub open spec fn hostname_after(start: Option<Seq<char>>, inputs: Seq<Seq<u8>>) -> Option<Seq<char>> {
    latest_found(start, names_carried(inputs))
}

/// One extraction, as `extract_from_client_hello` states it: from `pre` to
/// `post`, when the input carried `found`.
pub open spec fn extraction_step(pre: SniExtractor, post: SniExtractor, found: Option<Seq<char>>) -> bool {
    post.last_hostname() == if found is Some {
        found
    } else {
        pre.last_hostname()
    }
}

proof fn lemma_latest_found(states: Seq<SniExtractor>, found: Seq<Option<Seq<char>>>)
    requires
        states.len() == found.len() + 1,
        forall|i: int| 0 <= i < found.len() ==> extraction_step(states[i], states[i + 1], found[i]),
    ensures
        states.last().last_hostname() == latest_found(states[0].last_hostname(), found),
        forall|i: int|
            0 <= i < found.len() && found[i] is Some && (forall|j: int| i < j < found.len() ==> (#[trigger] found[j]) is None)
                ==> latest_found(states[0].last_hostname(), found) == found[i],
        (forall|j: int| 0 <= j < found.len() ==> (#[trigger] found[j]) is None) ==> latest_found(
            states[0].last_hostname(),
            found,
        ) == states[0].last_hostname(),
    decreases found.len(),
{
    if found.len() > 0 {
        let n = found.len() - 1;
        let f = found.drop_last();
        lemma_latest_found(states.drop_last(), f);
        assert(states.drop_last().last() == states[n]);
        assert(extraction_step(states[n], states[n + 1], found[n]));
        assert forall|i: int|
            0 <= i < found.len() && found[i] is Some && (forall|j: int| i < j < found.len() ==> (#[trigger] found[j]) is None)
                implies latest_found(states[0].last_hostname(), found) == found[i] by {
            if i < n {
                assert(found[n] is None);
                assert(f[i] == found[i]);
                assert forall|j: int| i < j < f.len() implies (#[trigger] f[j]) is None by {
                    assert(f[j] == found[j]);
                }
            }
        }
        if forall|j: int| 0 <= j < found.len() ==> (#[trigger] found[j]) is None {
            assert(found[n] is None);
            assert forall|j: int| 0 <= j < f.len() implies (#[trigger] f[j]) is None by {
                assert(f[j] == found[j]);
            }
        }
    }
}

/// After any run of extractions an extractor remembers the server name of the
/// latest input that carried one, and what it remembered before when none did
/// (nothing, for a new extractor); the name found at an input is kept through
/// every later input that carries none.
pub proof fn lemma_hostname_after_extractions(states: Seq<SniExtractor>, inputs: Seq<Seq<u8>>)
    requires
        states.len() == inputs.len() + 1,
        forall|i: int|
            0 <= i < inputs.len() ==> extraction_step(states[i], states[i + 1], sni_of_client_hello(#[trigger] inputs[i])),
    ensures
        states.last().last_hostname() == hostname_after(states[0].last_hostname(), inputs),
        forall|i: int|
            0 <= i < inputs.len() && #[trigger] names_carried(inputs)[i] is Some && (forall|j: int|
                i < j < inputs.len() ==> (#[trigger] names_carried(inputs)[j]) is None) ==> states.last().last_hostname()
                == sni_of_client_hello(inputs[i]),
        (forall|j: int| 0 <= j < inputs.len() ==> (#[trigger] names_carried(inputs)[j]) is None)
            ==> states.last().last_hostname() == states[0].last_hostname(),
{
    let found = names_carried(inputs);
    assert forall|i: int| 0 <= i < found.len() implies extraction_step(states[i], states[i + 1], found[i]) by {
        assert(found[i] == sni_of_client_hello(inputs[i]));
        assert(extraction_step(states[i], states[i + 1], sni_of_client_hello(inputs[i])));
    }
    lemma_latest_found(states, found);
}

/// The server names accepted from a ClientHello are exactly the texts of 1 to
/// 253 characters, each an ASCII letter or digit, '.', '-' or '_', that
/// neither start nor end with '.'.  Such a name stored as UTF-8 in a message
/// is read back as itself.
pub proof fn lemma_accepted_server_names(h: Seq<char>)
    ensures
        valid_hostname(h) <==> {
            &&& 1 <= h.len() <= 253
            &&& forall|i: int|
                0 <= i < h.len() ==> {
                    let c = #[trigger] h[i];
                    ||| ('a' <= c && c <= 'z')
                    ||| ('A' <= c && c <= 'Z')
                    ||| ('0' <= c && c <= '9')
                    ||| c == '.'
                    ||| c == '-'
                    ||| c == '_'
                }
            &&& h[0] != '.'
            &&& h[h.len() - 1] != '.'
        },
        valid_hostname(h) ==> forall|d: Seq<u8>, start: int|
            0 <= start && start + h.len() <= d.len() && #[trigger] d.subrange(start, start + h.len()) == encode_utf8(h)
                ==> hostname_in(d, start, h.len() as int) == Some(h),
{
    let allowed = forall|i: int|
        0 <= i < h.len() ==> {
            let c = #[trigger] h[i];
            ||| ('a' <= c && c <= 'z')
            ||| ('A' <= c && c <= 'Z')
            ||| ('0' <= c && c <= '9')
            ||| c == '.'
            ||| c == '-'
            ||| c == '_'
        };
    if allowed {
        assert forall|i: int| 0 <= i < h.len() implies '\0' <= #[trigger] h[i] <= '\u{7f}' by {
            assert(hostname_char(h[i]) || !hostname_char(h[i]));
        }
        assert(is_ascii_chars(h));
        assert(encode_utf8(h).len() == h.len());
    }
    if valid_hostname(h) {
        assert forall|i: int| 0 <= i < h.len() implies '\0' <= #[trigger] h[i] <= '\u{7f}' by {
            assert(hostname_char(h[i]));
        }
        assert(is_ascii_chars(h));
        assert(encode_utf8(h).len() == h.len());
        assert forall|d: Seq<u8>, start: int|
            0 <= start && start + h.len() <= d.len() && #[trigger] d.subrange(start, start + h.len()) == encode_utf8(h)
                implies hostname_in(d, start, h.len() as int) == Some(h) by {
            assert(valid_utf8(encode_utf8(h)));
            assert(decode_utf8(encode_utf8(h)) == h);
        }
    }
}

/// A number below 65536 as two big-endian bytes.
pub open spec fn be16_bytes(x: nat) -> Seq<u8> {
    seq![(x / 256) as u8, (x % 256) as u8]
}

/// A TLS 1.2 handshake record holding a ClientHello with the given 32 random
/// bytes, no session id, one cipher suite, no compression, and a single
/// extension: a server_name extension whose list holds one host_name entry
/// with the bytes `name`.
pub open spec fn client_hello_with_name(random: Seq<u8>, name: Seq<u8>) -> Seq<u8> {
    let entry = seq![0u8] + be16_bytes(name.len()) + name;
    let list = be16_bytes(entry.len()) + entry;
    let ext = be16_bytes(0) + be16_bytes(list.len()) + list;
    let body = seq![3u8, 3u8] + random + seq![0u8, 0u8, 2u8, 0u8, 0x2fu8, 1u8, 0u8] + be16_bytes(ext.len()) + ext;
    let handshake = seq![1u8, 0u8] + be16_bytes(body.len()) + body;
    seq![0x16u8, 3u8, 1u8] + be16_bytes(handshake.len()) + handshake
}

proof fn lemma_be16_bytes(d: Seq<u8>, i: int, x: nat)
    requires
        x < 65536,
        0 <= i,
        i + 1 < d.len(),
        d[i] == (x / 256) as u8,
        d[i + 1] == (x % 256) as u8,
    ensures
        be16(d, i) == x,
{
    assert((x / 256) < 256 && (x % 256) < 256 && (x / 256) * 256 + x % 256 == x) by (nonlinear_arith)
        requires
            x < 65536,
    ;
}

/// The bytes of `client_hello_with_name` laid out flat: an 11-byte header, the
/// random bytes, 18 more header bytes, then the name.
proof fn lemma_client_hello_layout(random: Seq<u8>, name: Seq<u8>)
    requires
        random.len() == 32,
        name.len() <= 253,
    ensures
        ({
            let n = name.len();
            client_hello_with_name(random, name) =~= seq![0x16u8, 3u8, 1u8]
                + be16_bytes((n + 56) as nat) + seq![1u8, 0u8] + be16_bytes((n + 52) as nat) + seq![3u8, 3u8] + random
                + seq![0u8, 0u8, 2u8, 0u8, 0x2fu8, 1u8, 0u8] + be16_bytes((n + 9) as nat) + be16_bytes(0) + be16_bytes(
                (n + 5) as nat,
            ) + be16_bytes((n + 3) as nat) + seq![0u8] + be16_bytes(n) + name
        }),
{
    let n = name.len();
    let entry = seq![0u8] + be16_bytes(n) + name;
    let list = be16_bytes(entry.len()) + entry;
    let ext = be16_bytes(0) + be16_bytes(list.len()) + list;
    let body = seq![3u8, 3u8] + random + seq![0u8, 0u8, 2u8, 0u8, 0x2fu8, 1u8, 0u8] + be16_bytes(ext.len()) + ext;
    let handshake = seq![1u8, 0u8] + be16_bytes(body.len()) + body;
    assert(entry.len() == n + 3);
    assert(list.len() == n + 5);
    assert(ext.len() == n + 9);
    assert(body.len() == n + 52);
    assert(handshake.len() == n + 56);
}

/// The parse of a record whose bytes have the ClientHello layout with a name
/// that is read back as `h`.
#[verifier::rlimit(30)]
proof fn lemma_client_hello_parse(d: Seq<u8>, n: int, h: Seq<char>)
    requires
        0 < n <= 253,
        d.len() == n + 61,
        d[0] == 0x16u8,
        d[1] == 3u8,
        be16(d, 3) == n + 56,
        d[5] == 1u8,
        d[43] == 0u8,
        be16(d, 44) == 2,
        d[48] == 1u8,
        be16(d, 50) == n + 9,
        be16(d, 52) == 0,
        be16(d, 54) == n + 5,
        be16(d, 56) == n + 3,
        d[58] == 0u8,
        be16(d, 59) == n,
        hostname_in(d, 61, n) == Some(h),
    ensures
        sni_of_client_hello(d) == Some(h),
{
    assert(scan_server_names(d, 56, 56 + (n + 5), 2, (n + 3) + 2) == Some(h));
    assert(sni_in_extension(d, 56, 56 + (n + 5)) == Some(h));
    assert(scan_extensions(d, 52, 52 + (n + 9)) == Some(h));
}

/// The fields of `client_hello_with_name` at their positions.
#[verifier::rlimit(30)]
proof fn lemma_client_hello_fields(random: Seq<u8>, name: Seq<u8>)
    requires
        random.len() == 32,
        name.len() <= 253,
    ensures
        ({
            let d = client_hello_with_name(random, name);
            let n = name.len() as int;
            &&& d.len() == n + 61
            &&& d[0] == 0x16u8
            &&& d[1] == 3u8
            &&& be16(d, 3) == n + 56
            &&& d[5] == 1u8
            &&& d[43] == 0u8
            &&& be16(d, 44) == 2
            &&& d[48] == 1u8
            &&& be16(d, 50) == n + 9
            &&& be16(d, 52) == 0
            &&& be16(d, 54) == n + 5
            &&& be16(d, 56) == n + 3
            &&& d[58] == 0u8
            &&& be16(d, 59) == n
            &&& d.subrange(61, 61 + n) == name
        }),
{
    let n: int = name.len() as int;
    lemma_client_hello_layout(random, name);
    let d = client_hello_with_name(random, name);
    let head = seq![0x16u8, 3u8, 1u8] + be16_bytes((n + 56) as nat) + seq![1u8, 0u8] + be16_bytes((n + 52) as nat)
        + seq![3u8, 3u8];
    let mid = seq![0u8, 0u8, 2u8, 0u8, 0x2fu8, 1u8, 0u8] + be16_bytes((n + 9) as nat) + be16_bytes(0) + be16_bytes(
        (n + 5) as nat,
    ) + be16_bytes((n + 3) as nat) + seq![0u8] + be16_bytes(n as nat);
    assert(head.len() == 11);
    assert(mid.len() == 18);
    assert(d =~= head + random + mid + name);
    assert(d[0] == head[0] && d[1] == head[1] && d[3] == head[3] && d[4] == head[4] && d[5] == head[5]);
    lemma_be16_bytes(d, 3, (n + 56) as nat);
    assert forall|i: int| 0 <= i < 18 implies d[43 + i] == #[trigger] mid[i] by {
        assert((head + random + mid + name)[43 + i] == mid[i]);
    }
    assert(d[43] == mid[0] && d[44] == mid[1] && d[45] == mid[2] && d[48] == mid[5]);
    lemma_be16_bytes(d, 44, 2);
    assert(d[50] == mid[7] && d[51] == mid[8]);
    lemma_be16_bytes(d, 50, (n + 9) as nat);
    assert(d[52] == mid[9] && d[53] == mid[10]);
    lemma_be16_bytes(d, 52, 0);
    assert(d[54] == mid[11] && d[55] == mid[12]);
    lemma_be16_bytes(d, 54, (n + 5) as nat);
    assert(d[56] == mid[13] && d[57] == mid[14]);
    lemma_be16_bytes(d, 56, (n + 3) as nat);
    assert(d[58] == mid[15] && d[59] == mid[16] && d[60] == mid[17]);
    lemma_be16_bytes(d, 59, n as nat);
    assert(d.subrange(61, 61 + n) =~= name);
}

/// A well-formed ClientHello whose only server name entry holds, in UTF-8, a
/// text of 1 to 253 ASCII letters, digits, '.', '-' and '_' that neither
/// starts nor ends with '.' carries exactly that server name (so
/// `extract_from_client_hello` gives it).
pub proof fn lemma_client_hello_carries_name(random: Seq<u8>, h: Seq<char>)
    requires
        random.len() == 32,
        1 <= h.len() <= 253,
        forall|i: int|
            0 <= i < h.len() ==> {
                let c = #[trigger] h[i];
                ||| ('a' <= c && c <= 'z')
                ||| ('A' <= c && c <= 'Z')
                ||| ('0' <= c && c <= '9')
                ||| c == '.'
                ||| c == '-'
                ||| c == '_'
            },
        h[0] != '.',
        h[h.len() - 1] != '.',
    ensures
        sni_of_client_hello(client_hello_with_name(random, encode_utf8(h))) == Some(h),
{
    lemma_accepted_server_names(h);
    let name = encode_utf8(h);
    assert(name.len() == h.len()) by {
        assert forall|i: int| 0 <= i < h.len() implies '\0' <= #[trigger] h[i] <= '\u{7f}' by {
            assert(hostname_char(h[i]));
        }
        assert(is_ascii_chars(h));
    }
    let n: int = name.len() as int;
    lemma_client_hello_fields(random, name);
    let d = client_hello_with_name(random, name);
    assert(d.subrange(61, 61 + h.len() as int) == encode_utf8(h));
    assert(hostname_in(d, 61, n) == Some(h));
    lemma_client_hello_parse(d, n, h);
}

} // verus!
