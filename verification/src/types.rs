//! Hardware and network addresses, and their written forms.

use crate::err::Error;
use crate::numeral::{
    append_dec, append_hex_pair, dec_byte, dec_text, dec_value, hex_byte, hex_pair, is_digits,
    lemma_dec_round_trip, lemma_hex_round_trip, parse_dec_byte, parse_hex_byte, unsigned_part,
};
use crate::text::{join, lemma_split_join, split, split_text, token_texts};
use vstd::prelude::*;
use vstd::string::StringExecFns;

verus! {

/// The six tokens that write `bytes` in hexadecimal.
pub open spec fn mac_tokens(bytes: Seq<u8>) -> Seq<Seq<char>> {
    Seq::new(bytes.len(), |i: int| hex_pair(bytes[i]))
}

/// The written form of a hardware address: its bytes in two hexadecimal
/// digits each, lower case, with colons between them.
pub open spec fn mac_text(bytes: Seq<u8>) -> Seq<char> {
    join(mac_tokens(bytes), ':')
}

/// The bytes that `text` writes as a hardware address: six tokens between
/// colons, each of exactly two hexadecimal digits.
pub open spec fn mac_of_text(text: Seq<char>) -> Option<Seq<u8>> {
    let tokens = split(text, ':');
    if tokens.len() == 6 && (forall|i: int| 0 <= i < 6 ==> hex_byte(#[trigger] tokens[i]) is Some) {
        Some(Seq::new(6, |i: int| hex_byte(tokens[i])->0))
    } else {
        None
    }
}

/// The four tokens that write `bytes` in decimal.
pub open spec fn ip_tokens(bytes: Seq<u8>) -> Seq<Seq<char>> {
    Seq::new(bytes.len(), |i: int| dec_text(bytes[i] as nat))
}

/// The written form of a network address: its bytes in decimal, without
/// leading zeros, with dots between them.
pub open spec fn ip_text(bytes: Seq<u8>) -> Seq<char> {
    join(ip_tokens(bytes), '.')
}

/// The bytes that `text` writes as a network address: four tokens between
/// dots, each a decimal number from 0 to 255.
pub open spec fn ip_of_text(text: Seq<char>) -> Option<Seq<u8>> {
    let tokens = split(text, '.');
    if tokens.len() == 4 && (forall|i: int| 0 <= i < 4 ==> dec_byte(#[trigger] tokens[i]) is Some) {
        Some(Seq::new(4, |i: int| dec_byte(tokens[i])->0))
    } else {
        None
    }
}

/// Whether `token` writes a decimal number that is too large for a byte.
pub open spec fn number_above_byte(token: Seq<char>) -> bool {
    let digits = unsigned_part(token);
    digits.len() > 0 && is_digits(digits) && dec_value(digits) > 255
}

/// The hardware address of a Bluetooth device: six bytes.
#[derive(Clone, Copy, Debug)]
pub struct MacAddress {
    bytes: [u8; 6],
}

impl View for MacAddress {
    type V = Seq<u8>;

    closed spec fn view(&self) -> Seq<u8> {
        self.bytes@
    }
}

impl PartialEq for MacAddress {
    fn eq(&self, other: &MacAddress) -> (equal: bool) {
        let equal = self.bytes[0] == other.bytes[0] && self.bytes[1] == other.bytes[1]
            && self.bytes[2] == other.bytes[2] && self.bytes[3] == other.bytes[3]
            && self.bytes[4] == other.bytes[4] && self.bytes[5] == other.bytes[5];
        assert(equal ==> self@ =~= other@);
        equal
    }
}

impl vstd::std_specs::cmp::PartialEqSpecImpl for MacAddress {
    open spec fn obeys_eq_spec() -> bool {
        true
    }

    open spec fn eq_spec(&self, other: &MacAddress) -> bool {
        self@ == other@
    }
}

impl MacAddress {
    /// An address has exactly six bytes.
    pub proof fn lemma_six_bytes(self)
        ensures
            self@.len() == 6,
    {
    }

    /// The address with the given bytes.
    pub fn new(bytes: [u8; 6]) -> (address: MacAddress)
        ensures
            address@ == bytes@,
    {
        MacAddress { bytes }
    }

    /// The bytes of the address.
    pub fn bytes(&self) -> (bytes: [u8; 6])
        ensures
            bytes@ == self@,
    {
        self.bytes
    }

    /// Reads an address from its written form. Letters may be in either case.
    pub fn from_str(s: &str) -> (parsed: Result<MacAddress, Error>)
        ensures
            match parsed {
                Ok(address) => mac_of_text(s@) == Some(address@),
                Err(error) => mac_of_text(s@) is None && error == Error::InvalidMacAddress,
            },
            split(s@, ':').len() != 6 ==> parsed matches Err(Error::InvalidMacAddress),
    {
        let tokens = split_text(s, ':');
        if tokens.len() != 6 {
            return Err(Error::InvalidMacAddress);
        }
        let ghost texts = split(s@, ':');
        assert(forall|i: int| 0 <= i < 6 ==> texts[i] == #[trigger] tokens@[i]@) by {
            assert(forall|i: int| 0 <= i < 6 ==> token_texts(tokens@)[i] == tokens@[i]@);
        }
        let b0 = match parse_hex_byte(&tokens[0]) {
            Some(byte) => byte,
            None => {
                assert(hex_byte(texts[0]) is None);
                return Err(Error::InvalidMacAddress);
            },
        };
        let b1 = match parse_hex_byte(&tokens[1]) {
            Some(byte) => byte,
            None => {
                assert(hex_byte(texts[1]) is None);
                return Err(Error::InvalidMacAddress);
            },
        };
        let b2 = match parse_hex_byte(&tokens[2]) {
            Some(byte) => byte,
            None => {
                assert(hex_byte(texts[2]) is None);
                return Err(Error::InvalidMacAddress);
            },
        };
        let b3 = match parse_hex_byte(&tokens[3]) {
            Some(byte) => byte,
            None => {
                assert(hex_byte(texts[3]) is None);
                return Err(Error::InvalidMacAddress);
            },
        };
        let b4 = match parse_hex_byte(&tokens[4]) {
            Some(byte) => byte,
            None => {
                assert(hex_byte(texts[4]) is None);
                return Err(Error::InvalidMacAddress);
            },
        };
        let b5 = match parse_hex_byte(&tokens[5]) {
            Some(byte) => byte,
            None => {
                assert(hex_byte(texts[5]) is None);
                return Err(Error::InvalidMacAddress);
            },
        };
        let address = MacAddress { bytes: [b0, b1, b2, b3, b4, b5] };
        assert(address@ =~= Seq::new(6, |i: int| hex_byte(texts[i])->0));
        Ok(address)
    }

    /// The written form of the address.
    pub fn to_string(&self) -> (text: String)
        ensures
            text@ == mac_text(self@),
            mac_of_text(text@) == Some(self@),
    {
        proof {
            lemma_mac_round_trip(*self);
        }
        let mut text = String::new();
        let ghost tokens = mac_tokens(self@);
        for i in 0..6usize
            invariant
                tokens == mac_tokens(self@),
                text@ == join(tokens.take(i as int), ':'),
        {
            proof {
                assert(tokens.take(i + 1).drop_last() == tokens.take(i as int));
                assert(tokens.take(i + 1).last() == hex_pair(self.bytes[i as int]));
            }
            if i > 0 {
                proof {
                    reveal_strlit(":");
                    assert(":"@ =~= seq![':']);
                }
                text.append(":");
            }
            append_hex_pair(&mut text, self.bytes[i]);
            assert(text@ =~= join(tokens.take(i + 1), ':'));
        }
        assert(tokens.take(6) == tokens);
        text
    }
}

/// The IPv4 address of a host: four bytes.
#[derive(Clone, Copy, Debug)]
pub struct IpAddress {
    bytes: [u8; 4],
}

impl View for IpAddress {
    type V = Seq<u8>;

    closed spec fn view(&self) -> Seq<u8> {
        self.bytes@
    }
}

impl PartialEq for IpAddress {
    fn eq(&self, other: &IpAddress) -> (equal: bool) {
        let equal = self.bytes[0] == other.bytes[0] && self.bytes[1] == other.bytes[1]
            && self.bytes[2] == other.bytes[2] && self.bytes[3] == other.bytes[3];
        assert(equal ==> self@ =~= other@);
        equal
    }
}

impl vstd::std_specs::cmp::PartialEqSpecImpl for IpAddress {
    open spec fn obeys_eq_spec() -> bool {
        true
    }

    open spec fn eq_spec(&self, other: &IpAddress) -> bool {
        self@ == other@
    }
}

impl IpAddress {
    /// An address has exactly four bytes.
    pub proof fn lemma_four_bytes(self)
        ensures
            self@.len() == 4,
    {
    }

    /// The address with the given bytes.
    pub fn new(bytes: [u8; 4]) -> (address: IpAddress)
        ensures
            address@ == bytes@,
    {
        IpAddress { bytes }
    }

    /// The bytes of the address.
    pub fn bytes(&self) -> (bytes: [u8; 4])
        ensures
            bytes@ == self@,
    {
        self.bytes
    }

    /// Reads an address from its written form. A number may have a `+` sign
    /// and leading zeros.
    pub fn from_str(s: &str) -> (parsed: Result<IpAddress, Error>)
        ensures
            match parsed {
                Ok(address) => ip_of_text(s@) == Some(address@),
                Err(error) => ip_of_text(s@) is None && error == Error::InvalidIpAddress,
            },
            split(s@, '.').len() != 4 ==> parsed matches Err(Error::InvalidIpAddress),
            forall|i: int|
                0 <= i < split(s@, '.').len() && number_above_byte(#[trigger] split(s@, '.')[i])
                    ==> parsed matches Err(Error::InvalidIpAddress),
    {
        let tokens = split_text(s, '.');
        let ghost texts = split(s@, '.');
        proof {
            assert forall|i: int| 0 <= i < texts.len() && number_above_byte(
                #[trigger] texts[i],
            ) implies dec_byte(texts[i]) is None by {}
        }
        if tokens.len() != 4 {
            return Err(Error::InvalidIpAddress);
        }
        assert(forall|i: int| 0 <= i < 4 ==> texts[i] == #[trigger] tokens@[i]@) by {
            assert(forall|i: int| 0 <= i < 4 ==> token_texts(tokens@)[i] == tokens@[i]@);
        }
        let b0 = match parse_dec_byte(&tokens[0]) {
            Some(byte) => byte,
            None => {
                assert(dec_byte(texts[0]) is None);
                return Err(Error::InvalidIpAddress);
            },
        };
        let b1 = match parse_dec_byte(&tokens[1]) {
            Some(byte) => byte,
            None => {
                assert(dec_byte(texts[1]) is None);
                return Err(Error::InvalidIpAddress);
            },
        };
        let b2 = match parse_dec_byte(&tokens[2]) {
            Some(byte) => byte,
            None => {
                assert(dec_byte(texts[2]) is None);
                return Err(Error::InvalidIpAddress);
            },
        };
        let b3 = match parse_dec_byte(&tokens[3]) {
            Some(byte) => byte,
            None => {
                assert(dec_byte(texts[3]) is None);
                return Err(Error::InvalidIpAddress);
            },
        };
        let address = IpAddress { bytes: [b0, b1, b2, b3] };
        assert(address@ =~= Seq::new(4, |i: int| dec_byte(texts[i])->0));
        Ok(address)
    }

    /// The written form of the address.
    pub fn to_string(&self) -> (text: String)
        ensures
            text@ == ip_text(self@),
            ip_of_text(text@) == Some(self@),
    {
        proof {
            lemma_ip_round_trip(*self);
        }
        let mut text = String::new();
        let ghost tokens = ip_tokens(self@);
        for i in 0..4usize
            invariant
                tokens == ip_tokens(self@),
                text@ == join(tokens.take(i as int), '.'),
        {
            proof {
                assert(tokens.take(i + 1).drop_last() == tokens.take(i as int));
                assert(tokens.take(i + 1).last() == dec_text(self.bytes[i as int] as nat));
            }
            if i > 0 {
                proof {
                    reveal_strlit(".");
                    assert("."@ =~= seq!['.']);
                }
                text.append(".");
            }
            append_dec(&mut text, self.bytes[i]);
            assert(text@ =~= join(tokens.take(i + 1), '.'));
        }
        assert(tokens.take(4) == tokens);
        text
    }
}

/// Writing a hardware address and reading the text gives the address back.
pub proof fn lemma_mac_round_trip(address: MacAddress)
    ensures
        mac_of_text(mac_text(address@)) == Some(address@),
{
    let bytes = address@;
    let tokens = mac_tokens(bytes);
    assert forall|i: int| 0 <= i < tokens.len() implies !(#[trigger] tokens[i]).contains(':')
        && hex_byte(tokens[i]) == Some(bytes[i]) by {
        lemma_hex_round_trip(bytes[i]);
    }
    lemma_split_join(tokens, ':');
    assert(Seq::new(6, |i: int| hex_byte(tokens[i])->0) =~= bytes);
}

/// Writing a network address and reading the text gives the address back.
pub proof fn lemma_ip_round_trip(address: IpAddress)
    ensures
        ip_of_text(ip_text(address@)) == Some(address@),
{
    let bytes = address@;
    let tokens = ip_tokens(bytes);
    assert forall|i: int| 0 <= i < tokens.len() implies !(#[trigger] tokens[i]).contains('.')
        && dec_byte(tokens[i]) == Some(bytes[i]) by {
        lemma_dec_round_trip(bytes[i]);
    }
    lemma_split_join(tokens, '.');
    assert(Seq::new(4, |i: int| dec_byte(tokens[i])->0) =~= bytes);
}

/// Two hardware addresses are equal exactly when their bytes are.
pub proof fn lemma_mac_equality(a: MacAddress, b: MacAddress)
    ensures
        (a == b) <==> (a@ == b@),
{
    if a@ == b@ {
        assert(a.bytes =~= b.bytes);
    }
}

/// Two network addresses are equal exactly when their bytes are, and
/// exactly when their written forms are.
pub proof fn lemma_ip_equality(a: IpAddress, b: IpAddress)
    ensures
        (a == b) <==> (a@ == b@),
        (a == b) <==> (ip_text(a@) == ip_text(b@)),
{
    if a@ == b@ {
        assert(a.bytes =~= b.bytes);
    }
    lemma_ip_round_trip(a);
    lemma_ip_round_trip(b);
}

/// Addresses read from the same text are equal. Addresses read from two
/// different texts are different, where each text is the written form of
/// the address read from it.
pub proof fn lemma_ip_same_text_same_address(
    first: Seq<char>,
    second: Seq<char>,
    a: IpAddress,
    b: IpAddress,
)
    requires
        ip_of_text(first) == Some(a@),
        ip_of_text(second) == Some(b@),
    ensures
        first == second ==> a == b,
        first != second && first == ip_text(a@) && second == ip_text(b@) ==> a != b,
{
    if first == second {
        assert(a.bytes =~= b.bytes);
    }
}

} // verus!
