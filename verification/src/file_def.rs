use vstd::prelude::*;

verus! {

/// The error of reading a digest from hex text.
#[derive(Debug, Clone, Copy, PartialEq, Eq, Structural)]
pub enum FromHexError {
    /// A character was not a hex digit; carries the character and its
    /// position.
    InvalidHexCharacter { c: char, index: usize },
    /// The text had an odd number of characters.
    OddLength,
    /// The text does not encode exactly the expected number of bytes.
    InvalidStringLength,
}

/// A hex digit: `0-9`, `a-f` or `A-F`.
pub open spec fn hex_digit(c: char) -> bool {
    ('0' <= c && c <= '9') || ('a' <= c && c <= 'f') || ('A' <= c && c <= 'F')
}

/// The value of a hex digit character.
pub open spec fn hex_val(c: char) -> nat {
    if '0' <= c && c <= '9' {
        (c as int - 48) as nat
    } else if 'a' <= c && c <= 'f' {
        (c as int - 87) as nat
    } else {
        (c as int - 55) as nat
    }
}

/// The uppercase hex digit character of a value below 16.
pub open spec fn hex_digit_upper(n: nat) -> char {
    if n < 10 {
        ((48 + n) as u8) as char
    } else {
        ((55 + n % 16) as u8) as char
    }
}

/// The uppercase hex form of a byte string: two digits per byte, high nibble
/// first.
pub open spec fn hex_upper_seq(bytes: Seq<u8>) -> Seq<char>
    decreases bytes.len(),
{
    if bytes.len() == 0 {
        Seq::empty()
    } else {
        hex_upper_seq(bytes.drop_last()) + seq![
            hex_digit_upper(bytes.last() as nat / 16),
            hex_digit_upper(bytes.last() as nat % 16),
        ]
    }
}

/// The bytes an even-length string of hex digits encodes, two digits per
/// byte.
pub open spec fn hex_decode_seq(s: Seq<char>) -> Seq<u8>
    decreases s.len(),
{
    if s.len() < 2 {
        Seq::empty()
    } else {
        seq![(hex_val(s[0]) * 16 + hex_val(s[1])) as u8] + hex_decode_seq(s.skip(2))
    }
}

/// Relies on `hex::encode_upper`: each input byte becomes two uppercase hex
/// digits, high nibble first.
#[verifier::external_body]
fn hex_encode_upper(b: &Vec<u8>) -> (r: String)
    ensures
        r@ == hex_upper_seq(b@),
{
    hex::encode_upper(b.as_slice())
}

/// Relies on `hex::decode`: an even-length string of hex digits decodes to
/// one byte per digit pair.
#[verifier::external_body]
fn hex_decode_all_digits(s: &str) -> (r: Vec<u8>)
    requires
        s@.len() % 2 == 0,
        forall|i: int| 0 <= i < s@.len() ==> hex_digit(#[trigger] s@[i]),
    ensures
        r@ == hex_decode_seq(s@),
        r@.len() == s@.len() / 2,
{
    hex::decode(s).expect("hex digits always decode")
}

/// One file of a download link: its digest and where to fetch it.
#[derive(Debug, Clone)]
pub struct FileDef {
    /// The SHA-256 digest of the file, 32 bytes.
    pub sha256: Vec<u8>,
    /// The URL the file is fetched from.
    pub url: String,
}

impl FileDef {
    /// A well-formed file descriptor holds a 32-byte digest.
    pub open spec fn wf(&self) -> bool {
        self.sha256@.len() == 32
    }

    /// Build a file descriptor from a digest and a URL.
    pub fn new(sha256: Vec<u8>, url: String) -> (r: Self)
        requires
            sha256@.len() == 32,
        ensures
            r.sha256 == sha256,
            r.url == url,
            r.wf(),
    {
        FileDef { sha256, url }
    }

    /// Build a file descriptor from the hex form of its digest: the text
    /// must hold exactly 64 hex digits. The check order matches reading into
    /// a fixed 32-byte buffer: parity first, then length, then digits.
    pub fn new_from_hex(sha256: &str, url: String) -> (r: Result<Self, FromHexError>)
        ensures
            ({
                let s = sha256@;
                &&& (s.len() % 2 != 0 ==> r == Err::<FileDef, FromHexError>(
                    FromHexError::OddLength,
                ))
                &&& (s.len() % 2 == 0 && s.len() != 64 ==> r == Err::<FileDef, FromHexError>(
                    FromHexError::InvalidStringLength,
                ))
                &&& (r matches Ok(f) <==> (s.len() == 64 && forall|i: int|
                    0 <= i < s.len() ==> hex_digit(#[trigger] s[i])))
                &&& (r matches Ok(f) ==> f.sha256@ == hex_decode_seq(s) && f.url@ == url@
                    && f.wf())
                &&& (r matches Err(e) ==> (e matches FromHexError::InvalidHexCharacter {
                    c,
                    index,
                } ==> s.len() == 64 && index < s.len() && c == s[index as int] && !hex_digit(c)
                    && forall|i: int| 0 <= i < index ==> hex_digit(#[trigger] s[i])))
            }),
    {
        let n = sha256.unicode_len();
        if n % 2 != 0 {
            return Err(FromHexError::OddLength);
        }
        if n != 64 {
            return Err(FromHexError::InvalidStringLength);
        }
        let mut i: usize = 0;
        while i < n
            invariant
                0 <= i <= n,
                n == sha256@.len(),
                n == 64,
                forall|j: int| 0 <= j < i ==> hex_digit(#[trigger] sha256@[j]),
            decreases n - i,
        {
            let c = sha256.get_char(i);
            if !(('0' <= c && c <= '9') || ('a' <= c && c <= 'f') || ('A' <= c && c <= 'F')) {
                return Err(FromHexError::InvalidHexCharacter { c, index: i });
            }
            i += 1;
        }
        let bytes = hex_decode_all_digits(sha256);
        Ok(FileDef { sha256: bytes, url })
    }

    /// An equal-valued copy of this file descriptor.
    pub fn duplicate(&self) -> (r: FileDef)
        ensures
            r.sha256@ == self.sha256@,
            r.url@ == self.url@,
    {
        let n = self.sha256.len();
        let mut bytes: Vec<u8> = Vec::new();
        let mut i: usize = 0;
        while i < n
            invariant
                0 <= i <= n,
                n == self.sha256@.len(),
                bytes@ =~= self.sha256@.take(i as int),
            decreases n - i,
        {
            bytes.push(self.sha256[i]);
            proof {
                assert(bytes@ =~= self.sha256@.take(i + 1));
            }
            i += 1;
        }
        proof {
            assert(self.sha256@.take(n as int) =~= self.sha256@);
        }
        FileDef { sha256: bytes, url: self.url.clone() }
    }

    /// The uppercase hex form of this file's digest.
    pub fn sha256(&self) -> (r: String)
        ensures
            r@ == hex_upper_seq(self.sha256@),
    {
        hex_encode_upper(&self.sha256)
    }
}

/// Test whether two byte strings are equal.
pub fn bytes_eq(a: &Vec<u8>, b: &Vec<u8>) -> (r: bool)
    ensures
        r == (a@ == b@),
{
    if a.len() != b.len() {
        proof {
            assert(a@ != b@);
        }
        return false;
    }
    let n = a.len();
    let mut i: usize = 0;
    while i < n
        invariant
            0 <= i <= n,
            n == a@.len(),
            n == b@.len(),
            forall|j: int| 0 <= j < i ==> a@[j] == b@[j],
        decreases n - i,
    {
        if a[i] != b[i] {
            return false;
        }
        i += 1;
    }
    proof {
        assert(a@ =~= b@);
    }
    true
}

} // verus!
