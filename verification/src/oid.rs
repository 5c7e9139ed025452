//! Object ids and their hexadecimal form.

use vstd::prelude::*;
use vstd::string::*;

verus! {

/// The number of bytes in an object id.
pub const OID_LEN: usize = 20;

/// The lower-case hexadecimal digit, in ASCII, of a value below sixteen.
pub open spec fn hex_digit(n: int) -> u8 {
    if n < 10 {
        (48 + n) as u8
    } else {
        (87 + n) as u8
    }
}

/// Two hexadecimal digits for each byte, the high half first.
pub open spec fn hex_bytes(bytes: Seq<u8>) -> Seq<u8> {
    Seq::new(
        2 * bytes.len(),
        |i: int|
            if i % 2 == 0 {
                hex_digit(bytes[i / 2] as int / 16)
            } else {
                hex_digit(bytes[i / 2] as int % 16)
            },
    )
}

/// `hex_bytes` as characters.
pub open spec fn hex_chars(bytes: Seq<u8>) -> Seq<char> {
    Seq::new(2 * bytes.len(), |i: int| hex_bytes(bytes)[i] as char)
}

/// Two bytes with the same two digits are the same byte.
pub proof fn lemma_hex_digits_tell_bytes_apart(a: u8, b: u8)
    requires
        hex_digit(a as int / 16) == hex_digit(b as int / 16),
        hex_digit(a as int % 16) == hex_digit(b as int % 16),
    ensures
        a == b,
{
}

/// Two byte strings with the same hexadecimal form are the same.
pub proof fn lemma_hex_tells_apart(a: Seq<u8>, b: Seq<u8>)
    requires
        hex_chars(a) == hex_chars(b),
    ensures
        a == b,
{
    assert(hex_chars(a).len() == 2 * a.len());
    assert(hex_chars(b).len() == 2 * b.len());
    assert forall|i: int| 0 <= i < a.len() implies a[i] == b[i] by {
        assert(hex_chars(a)[2 * i] == hex_chars(b)[2 * i]);
        assert(hex_chars(a)[2 * i + 1] == hex_chars(b)[2 * i + 1]);
        assert(hex_chars(a)[2 * i] as u8 == hex_bytes(a)[2 * i]);
        assert(hex_chars(b)[2 * i] as u8 == hex_bytes(b)[2 * i]);
        assert(hex_chars(a)[2 * i + 1] as u8 == hex_bytes(a)[2 * i + 1]);
        assert(hex_chars(b)[2 * i + 1] as u8 == hex_bytes(b)[2 * i + 1]);
        assert(hex_bytes(a)[2 * i] == hex_digit(a[i] as int / 16));
        assert(hex_bytes(a)[2 * i + 1] == hex_digit(a[i] as int % 16));
        assert(hex_bytes(b)[2 * i] == hex_digit(b[i] as int / 16));
        assert(hex_bytes(b)[2 * i + 1] == hex_digit(b[i] as int % 16));
        lemma_hex_digits_tell_bytes_apart(a[i], b[i]);
    }
    assert(a =~= b);
}

/// The hexadecimal digit of `n` as a byte.
pub fn hex_digit_byte(n: u8) -> (d: u8)
    requires
        n < 16,
    ensures
        d == hex_digit(n as int),
{
    if n < 10 {
        48 + n
    } else {
        87 + n
    }
}

/// The hexadecimal digit of `n` as a string of one character.
pub fn hex_digit_str(n: u8) -> (s: &'static str)
    requires
        n < 16,
    ensures
        s@ == seq![hex_digit(n as int) as char],
{
    proof {
        reveal_strlit("0");
        reveal_strlit("1");
        reveal_strlit("2");
        reveal_strlit("3");
        reveal_strlit("4");
        reveal_strlit("5");
        reveal_strlit("6");
        reveal_strlit("7");
        reveal_strlit("8");
        reveal_strlit("9");
        reveal_strlit("a");
        reveal_strlit("b");
        reveal_strlit("c");
        reveal_strlit("d");
        reveal_strlit("e");
        reveal_strlit("f");
    }
    let s = match n {
        0 => "0",
        1 => "1",
        2 => "2",
        3 => "3",
        4 => "4",
        5 => "5",
        6 => "6",
        7 => "7",
        8 => "8",
        9 => "9",
        10 => "a",
        11 => "b",
        12 => "c",
        13 => "d",
        14 => "e",
        _ => "f",
    };
    assert(s@ =~= seq![hex_digit(n as int) as char]);
    s
}

/// The id of one object of a repository: the object's SHA-1.
#[derive(Clone, Copy, Debug, PartialEq, Eq, Hash)]
pub struct ObjectId {
    pub bytes: [u8; 20],
}

impl View for ObjectId {
    type V = Seq<u8>;

    open spec fn view(&self) -> Seq<u8> {
        self.bytes@
    }
}

impl ObjectId {
    /// The id with the given bytes.
    pub fn new(bytes: [u8; 20]) -> (id: Self)
        ensures
            id.bytes == bytes,
    {
        ObjectId { bytes }
    }

    /// The forty hexadecimal digits of the id.
    pub open spec fn hex(self) -> Seq<char> {
        hex_chars(self@)
    }

    /// The forty hexadecimal digits of the id, in ASCII.
    pub fn to_hex_bytes(&self) -> (v: Vec<u8>)
        ensures
            v@ == hex_bytes(self@),
    {
        let mut v: Vec<u8> = Vec::new();
        let mut i: usize = 0;
        while i < 20
            invariant
                i <= 20,
                v@ == hex_bytes(self@).take(2 * i),
            decreases 20 - i,
        {
            let b = self.bytes[i];
            v.push(hex_digit_byte(b / 16));
            v.push(hex_digit_byte(b % 16));
            i += 1;
            assert(v@ =~= hex_bytes(self@).take(2 * i));
        }
        assert(hex_bytes(self@).take(40) =~= hex_bytes(self@));
        v
    }

    /// The hexadecimal digits of the bytes from `from` up to `to`.
    pub fn hex_range(&self, from: usize, to: usize) -> (s: String)
        requires
            from <= to <= OID_LEN,
        ensures
            s@ == self.hex().subrange(2 * from, 2 * to),
    {
        let mut s = String::new();
        let mut i: usize = from;
        while i < to
            invariant
                from <= i <= to <= 20,
                s@ == hex_chars(self@).subrange(2 * from, 2 * i),
            decreases to - i,
        {
            let b = self.bytes[i];
            s.append(hex_digit_str(b / 16));
            s.append(hex_digit_str(b % 16));
            i += 1;
            assert(s@ =~= hex_chars(self@).subrange(2 * from, 2 * i));
        }
        s
    }

    /// The forty hexadecimal digits of the id.
    pub fn to_string(&self) -> (s: String)
        ensures
            s@ == self.hex(),
    {
        let s = self.hex_range(0, OID_LEN);
        assert(self.hex().subrange(0, 40) =~= self.hex());
        s
    }
}

} // verus!
