//! The server's self-signed certificate, made in memory at start-up.
use vstd::prelude::*;

use crate::sessions::string_views;
use crate::text::decimal_digits;

verus! {

/// Declares `rcgen::Error` so that it can stand in signatures.
#[verifier::external_type_specification]
#[verifier::external_body]
pub struct ExRcgenError(rcgen::Error);

/// Why the certificate could not be made.
#[derive(Debug, Clone, Copy, PartialEq, Eq, Structural)]
pub enum CertificateError {
    /// `rcgen` refused to generate the key pair or the certificate.
    Generation,
}

/// The names the certificate is valid for.
pub open spec fn certificate_names_spec() -> Seq<Seq<char>> {
    seq!["localhost"@, "127.0.0.1"@, "0.0.0.0"@]
}

/// The names the certificate is valid for: `localhost`, `127.0.0.1` and `0.0.0.0`.
pub fn certificate_names() -> (names: Vec<String>)
    ensures
        names@.map_values(|s: String| s@) == certificate_names_spec(),
{
    let mut names: Vec<String> = Vec::new();
    names.push("localhost".to_owned());
    names.push("127.0.0.1".to_owned());
    names.push("0.0.0.0".to_owned());
    assert(names@.map_values(|s: String| s@) =~= certificate_names_spec());
    names
}

/// A letter of the ASCII alphabet.
pub open spec fn is_ascii_letter(c: char) -> bool {
    ('a' <= c <= 'z') || ('A' <= c <= 'Z')
}

/// A character of a host name: an ASCII letter or digit, `-` or `.`.
pub open spec fn is_host_char(c: char) -> bool {
    is_ascii_letter(c) || ('0' <= c <= '9') || c == '-' || c == '.'
}

/// A host name: host characters only, at least one of them a letter (so that it is no IP
/// address).
pub open spec fn is_host_name_text(s: Seq<char>) -> bool {
    &&& forall|i: int| 0 <= i < s.len() ==> is_host_char(#[trigger] s[i])
    &&& exists|i: int| 0 <= i < s.len() && is_ascii_letter(#[trigger] s[i])
}

/// The dotted decimal text of the IPv4 address `a.b.c.d`, without leading zeros.
pub open spec fn ipv4_text(a: nat, b: nat, c: nat, d: nat) -> Seq<char> {
    decimal_digits(a) + seq!['.'] + decimal_digits(b) + seq!['.'] + decimal_digits(c) + seq!['.']
        + decimal_digits(d)
}

/// An IPv4 address in dotted decimal, without leading zeros.
pub open spec fn is_ipv4_text(s: Seq<char>) -> bool {
    exists|a: nat, b: nat, c: nat, d: nat|
        a < 256 && b < 256 && c < 256 && d < 256 && s == #[trigger] ipv4_text(a, b, c, d)
}

/// A subject alternative name that a certificate gives back as it was written: a host name,
/// or an IPv4 address in its usual notation.
pub open spec fn is_plain_alt_name(s: Seq<char>) -> bool {
    is_host_name_text(s) || is_ipv4_text(s)
}

/// The subject alternative names of the DER certificate `der`, in order, as text: a DNS name
/// as written, an IPv4 address in dotted decimal without leading zeros.
pub uninterp spec fn certificate_alt_names(der: Seq<u8>) -> Seq<Seq<char>>;

/// `rcgen::generate_simple_self_signed` for the given subject alternative names: a fresh key
/// pair and a certificate signed with it, returned as the certificate's DER and the key's
/// PKCS#8 DER (`KeyPair::serialize_der`, which panics only for remote key pairs; this one is
/// generated locally). `rcgen` reads each name that parses as an IP address as one and every
/// other as a DNS name, and writes them in the given order; for host names and IPv4
/// addresses in their usual notation the certificate therefore names exactly `names`. The key
/// is random, so nothing more is promised of the bytes.
#[verifier::external_body]
fn generate_simple_self_signed(names: Vec<String>) -> (r: Result<(Vec<u8>, Vec<u8>), rcgen::Error>)
    requires
        forall|i: int| 0 <= i < names@.len() ==> is_plain_alt_name(#[trigger] names@[i]@),
    ensures
        r matches Ok(p) ==> certificate_alt_names(p.0@) == string_views(names@),
{
    match rcgen::generate_simple_self_signed(names) {
        Ok(ck) => Ok((ck.cert.der().to_vec(), ck.key_pair.serialize_der())),
        Err(e) => Err(e),
    }
}

proof fn lemma_certificate_names_plain()
    ensures
        forall|i: int|
            0 <= i < certificate_names_spec().len() ==> is_plain_alt_name(
                #[trigger] certificate_names_spec()[i],
            ),
{
    reveal_strlit("localhost");
    reveal_strlit("127.0.0.1");
    reveal_strlit("0.0.0.0");
    let l = "localhost"@;
    assert forall|i: int| 0 <= i < l.len() implies is_host_char(#[trigger] l[i]) by {
        assert(l[i] == 'l' || l[i] == 'o' || l[i] == 'c' || l[i] == 'a' || l[i] == 'h' || l[i] == 's'
            || l[i] == 't');
    }
    assert(is_ascii_letter(l[0]));
    assert(is_host_name_text(l));
    reveal_with_fuel(decimal_digits, 3);
    assert(decimal_digits(127) == seq!['1', '2', '7']);
    assert(decimal_digits(0) == seq!['0']);
    assert(decimal_digits(1) == seq!['1']);
    assert("127.0.0.1"@ =~= ipv4_text(127, 0, 0, 1));
    assert(is_ipv4_text("127.0.0.1"@));
    assert("0.0.0.0"@ =~= ipv4_text(0, 0, 0, 0));
    assert(is_ipv4_text("0.0.0.0"@));
}

/// A new self-signed certificate for `certificate_names()`: the certificate's DER and the
/// private key's PKCS#8 DER. The certificate names exactly those names, in that order.
pub fn self_signed_certificate() -> (r: Result<(Vec<u8>, Vec<u8>), CertificateError>)
    ensures
        r matches Ok(p) ==> certificate_alt_names(p.0@) == certificate_names_spec(),
        r matches Err(e) ==> e == CertificateError::Generation,
{
    let names = certificate_names();
    proof {
        lemma_certificate_names_plain();
        assert forall|i: int| 0 <= i < names@.len() implies is_plain_alt_name(#[trigger] names@[i]@) by {
            assert(names@.map_values(|s: String| s@)[i] == names@[i]@);
        }
        assert(string_views(names@) == names@.map_values(|s: String| s@));
    }
    match generate_simple_self_signed(names) {
        Ok(pair) => Ok(pair),
        Err(_) => Err(CertificateError::Generation),
    }
}

} // verus!
