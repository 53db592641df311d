//! The address of a session, signed with the credentials of the account.

use crate::clock;
use crate::error::XfyunASRError;
use crate::text;
use base64::Engine;
use hmac::Mac;
use std::time::SystemTime;
use vstd::prelude::*;
use vstd::utf8;

verus! {

/// The address of the service that is used where the credentials name none.
pub const DEFAULT_ENDPOINT: &'static str = "wss://rtasr.xfyun.cn/v1/ws";

/// The language that is asked for.
pub const DEFAULT_LANG: &'static str = "cn";

/// An account at the service.
#[derive(Clone, Debug)]
pub struct XfyunCredentials {
    /// The id of the application.
    pub app_id: String,
    /// The secret key of the interface.
    pub api_key: String,
    /// The address of the service; blank for the default one.
    pub endpoint: String,
}

/// What credentials say.
#[verifier::ext_equal]
pub struct CredentialsView {
    pub app_id: Seq<char>,
    pub api_key: Seq<char>,
    pub endpoint: Seq<char>,
}

impl View for XfyunCredentials {
    type V = CredentialsView;

    open spec fn view(&self) -> CredentialsView {
        CredentialsView {
            app_id: self.app_id@,
            api_key: self.api_key@,
            endpoint: self.endpoint@,
        }
    }
}

/// The MD5 digest of `data`, as `md5::compute` returns it.
pub uninterp spec fn md5_digest(data: Seq<u8>) -> Seq<u8>;

/// The HMAC-SHA1 of `message` under `key`, as the crates `hmac` and `sha1` compute it.
pub uninterp spec fn hmac_sha1_tag(key: Seq<u8>, message: Seq<u8>) -> Seq<u8>;

/// Calls `md5::compute`: sixteen bytes that follow from `data` alone.
#[verifier::external_body]
fn md5_of(data: &[u8]) -> (digest: Vec<u8>)
    ensures
        digest@ == md5_digest(data@),
        digest@.len() == 16,
{
    md5::compute(data).0.to_vec()
}

/// Computes an HMAC with `hmac::Hmac<sha1::Sha1>`: `new_from_slice`, which takes a key of any
/// length, then `update` once, then `finalize`. The twenty bytes follow from the key and the
/// message alone.
#[verifier::external_body]
fn hmac_sha1(key: &[u8], message: &[u8]) -> (tag: Vec<u8>)
    ensures
        tag@ == hmac_sha1_tag(key@, message@),
        tag@.len() == 20,
{
    let mut mac = <hmac::Hmac<sha1::Sha1> as Mac>::new_from_slice(key)
        .expect("HMAC takes a key of any length");
    mac.update(message);
    mac.finalize().into_bytes().to_vec()
}

/// The character for a value below sixty-four in the standard Base64 alphabet.
pub open spec fn base64_digit(n: int) -> char {
    (if n < 26 {
        'A' as int + n
    } else if n < 52 {
        'a' as int + n - 26
    } else if n < 62 {
        '0' as int + n - 52
    } else if n == 62 {
        '+' as int
    } else {
        '/' as int
    }) as char
}

/// `bytes` in Base64 with the standard alphabet and padding: every three bytes as four digits of
/// six bits each, and a last group of one or two bytes filled up with zero bits and `=`.
pub open spec fn base64_text(bytes: Seq<u8>) -> Seq<char>
    decreases bytes.len(),
{
    let a = bytes[0] as int;
    let b = if bytes.len() > 1 { bytes[1] as int } else { 0 };
    let c = if bytes.len() > 2 { bytes[2] as int } else { 0 };
    let d0 = base64_digit(a / 4);
    let d1 = base64_digit(a % 4 * 16 + b / 16);
    let d2 = base64_digit(b % 16 * 4 + c / 64);
    let d3 = base64_digit(c % 64);
    if bytes.len() == 0 {
        Seq::empty()
    } else if bytes.len() == 1 {
        seq![d0, d1, '=', '=']
    } else if bytes.len() == 2 {
        seq![d0, d1, d2, '=']
    } else {
        seq![d0, d1, d2, d3] + base64_text(bytes.skip(3))
    }
}

/// Calls `encode` of `base64::engine::general_purpose::STANDARD`, which writes `bytes` in Base64
/// with the standard alphabet and padding. It panics where the size of the text overflows, which
/// the bound rules out.
#[verifier::external_body]
fn base64_encode(bytes: &[u8]) -> (text: String)
    requires
        bytes@.len() <= usize::MAX / 4,
    ensures
        text@ == base64_text(bytes@),
{
    base64::engine::general_purpose::STANDARD.encode(bytes)
}

/// Whether a byte stands for itself in a percent-encoded text: letters, digits and `-._~`.
pub open spec fn unreserved(byte: u8) -> bool {
    ||| '0' as int <= byte <= '9' as int
    ||| 'A' as int <= byte <= 'Z' as int
    ||| 'a' as int <= byte <= 'z' as int
    ||| byte == '-' as int
    ||| byte == '.' as int
    ||| byte == '_' as int
    ||| byte == '~' as int
}

/// The digit for a value below sixteen, letters in upper case.
pub open spec fn upper_hex_digit(n: int) -> char {
    (if n < 10 {
        '0' as int + n
    } else {
        'A' as int + n - 10
    }) as char
}

/// How one byte is written in a percent-encoded text.
pub open spec fn percent_byte(byte: u8) -> Seq<char> {
    if unreserved(byte) {
        seq![byte as char]
    } else {
        seq!['%', upper_hex_digit(byte as int / 16), upper_hex_digit(byte as int % 16)]
    }
}

/// `text` percent-encoded, byte by byte of its UTF-8 form.
pub open spec fn percent_encoded(text: Seq<char>) -> Seq<char> {
    let bytes = utf8::encode_utf8(text);
    Seq::new(bytes.len(), |i: int| percent_byte(bytes[i])).flatten()
}

/// Calls `urlencoding::encode`, which percent-encodes every byte of the UTF-8 form of `text` but
/// letters, digits and `-._~`.
#[verifier::external_body]
fn percent_encode(text: &str) -> (encoded: String)
    ensures
        encoded@ == percent_encoded(text@),
{
    urlencoding::encode(text).into_owned()
}

impl CredentialsView {
    /// Whether the id or the key is blank.
    pub open spec fn missing(self) -> bool {
        text::trimmed(self.app_id).len() == 0 || text::trimmed(self.api_key).len() == 0
    }

    /// The address of the service: the default one where none is given.
    pub open spec fn service(self) -> Seq<char> {
        if text::trimmed(self.endpoint).len() == 0 {
            DEFAULT_ENDPOINT@
        } else {
            text::trimmed(self.endpoint)
        }
    }

    /// The signature for the second `ts`: the id and `ts` as MD5 in hexadecimal, that under
    /// HMAC-SHA1 with the key, and that in Base64.
    pub open spec fn signature(self, ts: u64) -> Seq<char> {
        let base = text::trimmed(self.app_id) + text::decimal(ts as nat);
        let digest = text::lower_hex(md5_digest(utf8::encode_utf8(base)));
        base64_text(
            hmac_sha1_tag(
                utf8::encode_utf8(text::trimmed(self.api_key)),
                utf8::encode_utf8(digest),
            ),
        )
    }

    /// The address of a session that is opened in the second `ts`.
    pub open spec fn session_url(self, ts: u64) -> Seq<char> {
        self.service() + (if self.service().contains('?') {
            "&"@
        } else {
            "?"@
        }) + "appid="@ + percent_encoded(text::trimmed(self.app_id)) + "&ts="@ + text::decimal(
            ts as nat,
        ) + "&signa="@ + percent_encoded(self.signature(ts)) + "&lang="@ + percent_encoded(
            DEFAULT_LANG@,
        )
    }
}

/// The signature for the second `ts`.
fn signature(creds: &XfyunCredentials, ts: u64) -> (signa: String)
    ensures
        signa@ == creds@.signature(ts),
{
    let mut base = creds.app_id.as_str().trim().to_owned();
    text::append_decimal(&mut base, ts);
    let digest = text::to_lower_hex(&md5_of(base.as_str().as_bytes()));
    let tag = hmac_sha1(creds.api_key.as_str().trim().as_bytes(), digest.as_str().as_bytes());
    base64_encode(tag.as_slice())
}

/// The address of a session that is opened in the second `ts` since the Unix epoch.
pub fn session_url_at(creds: &XfyunCredentials, ts: u64) -> (url: String)
    ensures
        url@ == creds@.session_url(ts),
{
    let signa = signature(creds, ts);
    let given = creds.endpoint.as_str().trim();
    let endpoint = if given.is_empty() {
        DEFAULT_ENDPOINT
    } else {
        given
    };
    let mut url = endpoint.to_owned();
    if text::has_char(endpoint, '?') {
        url.append("&");
    } else {
        url.append("?");
    }
    url.append("appid=");
    url.append(percent_encode(creds.app_id.as_str().trim()).as_str());
    url.append("&ts=");
    text::append_decimal(&mut url, ts);
    url.append("&signa=");
    url.append(percent_encode(signa.as_str()).as_str());
    url.append("&lang=");
    url.append(percent_encode(DEFAULT_LANG).as_str());
    url
}

/// The address of a session that is opened now. It fails where the clock shows a time before the
/// Unix epoch.
pub fn build_session_url(creds: &XfyunCredentials) -> (url: Result<String, XfyunASRError>)
    ensures
        match url {
            Ok(url) => exists|now: SystemTime|
                (#[trigger] clock::epoch_seconds(now)) is Some && url@ == creds@.session_url(
                    clock::epoch_seconds(now)->Some_0,
                ),
            Err(error) => error@ is SignaFailed && exists|now: SystemTime|
                (#[trigger] clock::epoch_seconds(now)) is None,
        },
{
    let now = SystemTime::now();
    match clock::seconds_since_epoch(now) {
        Ok(ts) => {
            let url = session_url_at(creds, ts);
            assert(clock::epoch_seconds(now) == Some(ts));
            Ok(url)
        },
        Err(why) => {
            assert(clock::epoch_seconds(now) is None);
            Err(XfyunASRError::SignaFailed(why))
        },
    }
}

/// White space around what the credentials say makes no difference, neither to the address of a
/// session nor to whether credentials are missing.
pub proof fn white_space_around_credentials_is_ignored(creds: CredentialsView, ts: u64)
    ensures
        ({
            let bare = CredentialsView {
                app_id: text::trimmed(creds.app_id),
                api_key: text::trimmed(creds.api_key),
                endpoint: text::trimmed(creds.endpoint),
            };
            bare.session_url(ts) == creds.session_url(ts) && bare.missing() == creds.missing()
        }),
{
    text::trimming_twice_is_trimming(creds.app_id);
    text::trimming_twice_is_trimming(creds.api_key);
    text::trimming_twice_is_trimming(creds.endpoint);
}

/// The characters of a percent-encoded text: letters, digits and `-._~%`.
pub open spec fn url_safe(c: char) -> bool {
    ||| '0' <= c <= '9'
    ||| 'A' <= c <= 'Z'
    ||| 'a' <= c <= 'z'
    ||| c == '-'
    ||| c == '.'
    ||| c == '_'
    ||| c == '~'
    ||| c == '%'
}

proof fn lemma_flat_is_safe(parts: Seq<Seq<char>>)
    requires
        forall|i: int, j: int|
            0 <= i < parts.len() && 0 <= j < parts[i].len() ==> url_safe(
                #[trigger] (#[trigger] parts[i])[j],
            ),
    ensures
        forall|i: int| 0 <= i < parts.flatten().len() ==> url_safe(#[trigger] parts.flatten()[i]),
    decreases parts.len(),
{
    if parts.len() > 0 {
        let rest = parts.drop_first();
        assert forall|i: int, j: int|
            0 <= i < rest.len() && 0 <= j < rest[i].len() implies url_safe(
            #[trigger] (#[trigger] rest[i])[j],
        ) by {
            assert(url_safe(parts[i + 1][j]));
        }
        lemma_flat_is_safe(rest);
        assert forall|i: int| 0 <= i < parts.flatten().len() implies url_safe(
            #[trigger] parts.flatten()[i],
        ) by {
            if i < parts.first().len() {
                assert(parts.flatten()[i] == parts[0][i]);
            } else {
                assert(parts.flatten()[i] == rest.flatten()[i - parts.first().len()]);
            }
        }
    }
}

/// A percent-encoded text holds only letters, digits and `-._~%`, so none of the characters that
/// part the parameters of an address.
pub proof fn encoded_text_holds_no_separator(text: Seq<char>, i: int)
    requires
        0 <= i < percent_encoded(text).len(),
    ensures
        url_safe(percent_encoded(text)[i]),
        percent_encoded(text)[i] != '&',
        percent_encoded(text)[i] != '=',
        percent_encoded(text)[i] != '?',
        percent_encoded(text)[i] != '#',
{
    let bytes = utf8::encode_utf8(text);
    lemma_flat_is_safe(Seq::new(bytes.len(), |i: int| percent_byte(bytes[i])));
}

/// The value of a hexadecimal digit in upper case.
pub open spec fn upper_hex_value(digit: char) -> int {
    if '0' <= digit <= '9' {
        digit as int - '0' as int
    } else {
        digit as int - 'A' as int + 10
    }
}

/// The bytes that a percent-encoded text is read as.
pub open spec fn percent_read(encoded: Seq<char>) -> Seq<u8>
    decreases encoded.len(),
{
    if encoded.len() == 0 {
        Seq::empty()
    } else if encoded[0] == '%' && encoded.len() >= 3 {
        seq![(upper_hex_value(encoded[1]) * 16 + upper_hex_value(encoded[2])) as u8]
            + percent_read(encoded.skip(3))
    } else {
        seq![encoded[0] as u8] + percent_read(encoded.skip(1))
    }
}

proof fn lemma_byte_is_read(byte: u8, rest: Seq<char>)
    ensures
        percent_read(percent_byte(byte) + rest) == seq![byte] + percent_read(rest),
{
    let encoded = percent_byte(byte) + rest;
    if unreserved(byte) {
        assert(encoded.skip(1) =~= rest);
        assert(encoded[0] == byte as char);
        assert(encoded[0] as u8 == byte);
    } else {
        let high = byte as int / 16;
        let low = byte as int % 16;
        assert(encoded.skip(3) =~= rest);
        assert(upper_hex_value(upper_hex_digit(high)) == high);
        assert(upper_hex_value(upper_hex_digit(low)) == low);
        assert(high * 16 + low == byte);
    }
}

proof fn lemma_bytes_are_read(bytes: Seq<u8>)
    ensures
        percent_read(Seq::new(bytes.len(), |i: int| percent_byte(bytes[i])).flatten()) == bytes,
    decreases bytes.len(),
{
    let parts = Seq::new(bytes.len(), |i: int| percent_byte(bytes[i]));
    if bytes.len() == 0 {
        assert(parts.flatten() =~= Seq::<char>::empty());
        assert(bytes =~= Seq::empty());
    } else {
        let rest = bytes.drop_first();
        lemma_bytes_are_read(rest);
        assert(parts.drop_first() =~= Seq::new(rest.len(), |i: int| percent_byte(rest[i])));
        assert(parts.flatten() == parts.first() + parts.drop_first().flatten());
        lemma_byte_is_read(bytes[0], parts.drop_first().flatten());
        assert(seq![bytes[0]] + rest =~= bytes);
    }
}

/// A percent-encoded text is read back as the text that was encoded.
pub proof fn percent_encoding_is_read_back(text: Seq<char>)
    ensures
        percent_read(percent_encoded(text)) == utf8::encode_utf8(text),
{
    lemma_bytes_are_read(utf8::encode_utf8(text));
}

/// The value of a Base64 digit; that of the filling is zero.
pub open spec fn base64_value(digit: char) -> int {
    if 'A' <= digit <= 'Z' {
        digit as int - 'A' as int
    } else if 'a' <= digit <= 'z' {
        digit as int - 'a' as int + 26
    } else if '0' <= digit <= '9' {
        digit as int - '0' as int + 52
    } else if digit == '+' {
        62
    } else if digit == '/' {
        63
    } else {
        0
    }
}

/// The bytes that a Base64 text is read as.
pub open spec fn base64_read(text: Seq<char>) -> Seq<u8>
    decreases text.len(),
{
    let a = (base64_value(text[0]) * 4 + base64_value(text[1]) / 16) as u8;
    let b = (base64_value(text[1]) % 16 * 16 + base64_value(text[2]) / 4) as u8;
    let c = (base64_value(text[2]) % 4 * 64 + base64_value(text[3])) as u8;
    if text.len() < 4 {
        Seq::empty()
    } else if text[2] == '=' {
        seq![a]
    } else if text[3] == '=' {
        seq![a, b]
    } else {
        seq![a, b, c] + base64_read(text.skip(4))
    }
}

proof fn lemma_base64_digit(n: int)
    requires
        0 <= n < 64,
    ensures
        base64_value(base64_digit(n)) == n,
        base64_digit(n) != '=',
{
}

/// A Base64 text is read back as the bytes that were written, four characters to every three of
/// them.
pub proof fn base64_is_read_back(bytes: Seq<u8>)
    ensures
        base64_read(base64_text(bytes)) == bytes,
        base64_text(bytes).len() == (bytes.len() + 2) / 3 * 4,
    decreases bytes.len(),
{
    let text = base64_text(bytes);
    let a = bytes[0] as int;
    let b = if bytes.len() > 1 { bytes[1] as int } else { 0 };
    let c = if bytes.len() > 2 { bytes[2] as int } else { 0 };
    lemma_base64_digit(a / 4);
    lemma_base64_digit(a % 4 * 16 + b / 16);
    lemma_base64_digit(b % 16 * 4 + c / 64);
    lemma_base64_digit(c % 64);
    if bytes.len() == 0 {
        assert(base64_read(text) =~= bytes);
    } else if bytes.len() == 1 {
        assert(base64_read(text) =~= bytes);
    } else if bytes.len() == 2 {
        assert(base64_read(text) =~= bytes);
    } else {
        base64_is_read_back(bytes.skip(3));
        assert(text.skip(4) =~= base64_text(bytes.skip(3)));
        assert(base64_read(text) =~= seq![bytes[0], bytes[1], bytes[2]] + bytes.skip(3));
        assert(seq![bytes[0], bytes[1], bytes[2]] + bytes.skip(3) =~= bytes);
    }
}

/// A signature can be checked against the id, the key and the second: it is the Base64 of the
/// HMAC-SHA1 under the key of a text, and that text is, digit by digit in lower case, the MD5 of
/// the id followed by a row of digits without leading zeros that says `ts`.
pub proof fn signature_can_be_checked(creds: CredentialsView, ts: u64) -> (parts: (
    Seq<char>,
    Seq<char>,
))
    ensures
        ({
            let (stamp, digest) = parts;
            let md5 = md5_digest(utf8::encode_utf8(text::trimmed(creds.app_id) + stamp));
            &&& text::number_read(stamp) == ts
            &&& forall|i: int| 0 <= i < stamp.len() ==> '0' <= #[trigger] stamp[i] <= '9'
            &&& stamp.len() > 0 && (stamp.len() > 1 ==> stamp[0] != '0')
            &&& digest.len() == 2 * md5.len()
            &&& forall|i: int|
                0 <= i < md5.len() ==> #[trigger] md5[i] == text::hex_value(digest[2 * i]) * 16
                    + text::hex_value(digest[2 * i + 1])
            &&& forall|i: int|
                0 <= i < digest.len() ==> 0 <= text::hex_value(#[trigger] digest[i]) < 16
            &&& base64_read(creds.signature(ts)) == hmac_sha1_tag(
                utf8::encode_utf8(text::trimmed(creds.api_key)),
                utf8::encode_utf8(digest),
            )
            &&& creds.signature(ts) == base64_text(base64_read(creds.signature(ts)))
        }),
{
    let stamp = text::decimal(ts as nat);
    let md5 = md5_digest(utf8::encode_utf8(text::trimmed(creds.app_id) + stamp));
    let digest = text::lower_hex(md5);
    text::decimal_is_read_back(ts as nat);
    text::hexadecimal_is_read_back(md5);
    base64_is_read_back(
        hmac_sha1_tag(
            utf8::encode_utf8(text::trimmed(creds.api_key)),
            utf8::encode_utf8(digest),
        ),
    );
    (stamp, digest)
}

/// The address of a session is that of the service, the default one where the credentials name
/// none, and then the parameters `appid`, `ts`, `signa` and `lang`, behind a `?` or, where the
/// service has parameters already, a `&`. Read back they are the id, the second, the signature
/// and the language `cn`, and none of them holds a character that parts parameters.
pub proof fn address_carries_the_parameters(creds: CredentialsView, ts: u64) -> (parts: (
    Seq<char>,
    Seq<char>,
    Seq<char>,
    Seq<char>,
))
    ensures
        ({
            let (id, stamp, signa, lang) = parts;
            let blank = forall|i: int|
                0 <= i < creds.endpoint.len() ==> text::white_space(#[trigger] creds.endpoint[i]);
            let service = if blank {
                "wss://rtasr.xfyun.cn/v1/ws"@
            } else {
                text::trimmed(creds.endpoint)
            };
            &&& service.contains('?') ==> creds.session_url(ts) == service + "&"@ + "appid="@ + id
                + "&ts="@ + stamp + "&signa="@ + signa + "&lang="@ + lang
            &&& !service.contains('?') ==> creds.session_url(ts) == service + "?"@ + "appid="@ + id
                + "&ts="@ + stamp + "&signa="@ + signa + "&lang="@ + lang
            &&& id == percent_encoded(text::trimmed(creds.app_id))
            &&& signa == percent_encoded(creds.signature(ts))
            &&& lang == percent_encoded("cn"@)
            &&& percent_read(id) == utf8::encode_utf8(text::trimmed(creds.app_id))
            &&& text::number_read(stamp) == ts
            &&& forall|i: int| 0 <= i < stamp.len() ==> '0' <= #[trigger] stamp[i] <= '9'
            &&& stamp.len() > 0 && (stamp.len() > 1 ==> stamp[0] != '0')
            &&& percent_read(signa) == utf8::encode_utf8(creds.signature(ts))
            &&& percent_read(lang) == utf8::encode_utf8("cn"@)
            &&& forall|i: int| 0 <= i < id.len() ==> url_safe(#[trigger] id[i])
            &&& forall|i: int| 0 <= i < signa.len() ==> url_safe(#[trigger] signa[i])
            &&& forall|i: int| 0 <= i < lang.len() ==> url_safe(#[trigger] lang[i])
        }),
{
    let id = percent_encoded(text::trimmed(creds.app_id));
    let stamp = text::decimal(ts as nat);
    let signa = percent_encoded(creds.signature(ts));
    let lang = percent_encoded("cn"@);
    text::blank_text_is_all_white_space(creds.endpoint);
    text::decimal_is_read_back(ts as nat);
    percent_encoding_is_read_back(text::trimmed(creds.app_id));
    percent_encoding_is_read_back(creds.signature(ts));
    percent_encoding_is_read_back("cn"@);
    assert forall|i: int| 0 <= i < id.len() implies url_safe(#[trigger] id[i]) by {
        encoded_text_holds_no_separator(text::trimmed(creds.app_id), i);
    }
    assert forall|i: int| 0 <= i < signa.len() implies url_safe(#[trigger] signa[i]) by {
        encoded_text_holds_no_separator(creds.signature(ts), i);
    }
    assert forall|i: int| 0 <= i < lang.len() implies url_safe(#[trigger] lang[i]) by {
        encoded_text_holds_no_separator("cn"@, i);
    }
    (id, stamp, signa, lang)
}

/// Credentials are missing exactly where the id or the key is white space throughout.
pub proof fn blank_credentials_are_missing(creds: CredentialsView)
    ensures
        creds.missing() <==> (forall|i: int|
            0 <= i < creds.app_id.len() ==> text::white_space(#[trigger] creds.app_id[i])) || (
        forall|i: int|
            0 <= i < creds.api_key.len() ==> text::white_space(#[trigger] creds.api_key[i])),
{
    text::blank_text_is_all_white_space(creds.app_id);
    text::blank_text_is_all_white_space(creds.api_key);
}

} // verus!
