//! Commit identifiers.

use vstd::prelude::*;
use vstd::string::*;

verus! {

/// The content identifier of a commit. Two identifiers are the same commit
/// exactly when their bytes are equal.
#[derive(Clone, Copy, Debug, PartialEq, Eq, Hash)]
pub struct CommitId {
    pub bytes: [u8; 20],
}

/// The number under which an identifier is filed: its first eight bytes,
/// most significant first.
pub open spec fn filing_key(bytes: Seq<u8>) -> u64 {
    (bytes[0] as u64) << 56 | (bytes[1] as u64) << 48 | (bytes[2] as u64) << 40 | (bytes[3] as u64)
        << 32 | (bytes[4] as u64) << 24 | (bytes[5] as u64) << 16 | (bytes[6] as u64) << 8 | (
    bytes[7] as u64)
}

/// The identifier whose bytes are `bytes`; there is one where `bytes` has the
/// length of an identifier.
pub open spec fn id_of(bytes: Seq<u8>) -> CommitId {
    choose|id: CommitId| id.bytes@ == bytes
}

/// An identifier is the one that its own bytes name.
pub proof fn lemma_id_of_bytes(id: CommitId)
    ensures
        id_of(id.bytes@) == id,
{
    let other = id_of(id.bytes@);
    assert(other.bytes@ == id.bytes@);
    assert(other.bytes =~= id.bytes);
}

/// The character that stands for the hexadecimal digit `d`.
pub open spec fn hex_char(d: u8) -> char {
    if d == 0 {
        '0'
    } else if d == 1 {
        '1'
    } else if d == 2 {
        '2'
    } else if d == 3 {
        '3'
    } else if d == 4 {
        '4'
    } else if d == 5 {
        '5'
    } else if d == 6 {
        '6'
    } else if d == 7 {
        '7'
    } else if d == 8 {
        '8'
    } else if d == 9 {
        '9'
    } else if d == 10 {
        'a'
    } else if d == 11 {
        'b'
    } else if d == 12 {
        'c'
    } else if d == 13 {
        'd'
    } else if d == 14 {
        'e'
    } else {
        'f'
    }
}

/// The bytes in hexadecimal, two lower-case digits for each byte.
pub open spec fn hex(bytes: Seq<u8>) -> Seq<char>
    decreases bytes.len(),
{
    if bytes.len() == 0 {
        Seq::empty()
    } else {
        hex(bytes.drop_last()) + seq![hex_char(bytes.last() / 16), hex_char(bytes.last() % 16)]
    }
}

fn hex_str(d: u8) -> (s: &'static str)
    requires
        d < 16,
    ensures
        s@ == seq![hex_char(d)],
{
    proof {
        reveal_strlit("0");
        reveal_strlit("1");
        reveal_strlit("2");
        reveal_strlit("3");
        reveal_strlit("4");
        reveal_strlit("5");
        reveal_strlit("6");
        reveal_strlit("7");
        reveal_strlit("8");
        reveal_strlit("9");
        reveal_strlit("a");
        reveal_strlit("b");
        reveal_strlit("c");
        reveal_strlit("d");
        reveal_strlit("e");
        reveal_strlit("f");
    }
    let s = if d == 0 {
        "0"
    } else if d == 1 {
        "1"
    } else if d == 2 {
        "2"
    } else if d == 3 {
        "3"
    } else if d == 4 {
        "4"
    } else if d == 5 {
        "5"
    } else if d == 6 {
        "6"
    } else if d == 7 {
        "7"
    } else if d == 8 {
        "8"
    } else if d == 9 {
        "9"
    } else if d == 10 {
        "a"
    } else if d == 11 {
        "b"
    } else if d == 12 {
        "c"
    } else if d == 13 {
        "d"
    } else if d == 14 {
        "e"
    } else {
        "f"
    };
    assert(s@ =~= seq![hex_char(d)]);
    s
}

impl CommitId {
    /// The identifier with the given bytes.
    pub fn from_bytes(bytes: [u8; 20]) -> (id: CommitId)
        ensures
            id.bytes == bytes,
    {
        CommitId { bytes }
    }

    /// The identifier with the bytes of `bytes`, where there are as many as an
    /// identifier has.
    pub fn from_slice(bytes: &[u8]) -> (id: Option<CommitId>)
        ensures
            id is Some <==> bytes@.len() == 20,
            id matches Some(id) ==> id.bytes@ == bytes@ && id == id_of(bytes@),
    {
        if bytes.len() != 20 {
            return None;
        }
        let mut copy = [0u8; 20];
        let mut i: usize = 0;
        while i < 20
            invariant
                i <= 20,
                bytes@.len() == 20,
                forall|j: int| 0 <= j < i ==> copy[j] == bytes@[j],
            decreases 20 - i,
        {
            copy[i] = bytes[i];
            i = i + 1;
        }
        assert(copy@ =~= bytes@);
        let id = CommitId { bytes: copy };
        proof {
            lemma_id_of_bytes(id);
        }
        Some(id)
    }

    /// The bytes of the identifier.
    pub fn as_bytes(&self) -> (bytes: [u8; 20])
        ensures
            bytes == self.bytes,
    {
        self.bytes
    }

    /// The number under which this identifier is filed in a table.
    pub open spec fn key(self) -> u64 {
        filing_key(self.bytes@)
    }

    /// Computes the filing number.
    pub fn filing_key(&self) -> (k: u64)
        ensures
            k == self.key(),
    {
        let b = &self.bytes;
        (b[0] as u64) << 56 | (b[1] as u64) << 48 | (b[2] as u64) << 40 | (b[3] as u64) << 32 | (
        b[4] as u64) << 24 | (b[5] as u64) << 16 | (b[6] as u64) << 8 | (b[7] as u64)
    }

    /// Writes the identifier as forty hexadecimal digits.
    pub fn to_hex(&self) -> (text: String)
        ensures
            text@ == hex(self.bytes@),
    {
        let mut text = String::new();
        let mut i: usize = 0;
        assert(self.bytes@.subrange(0, 0) =~= Seq::<u8>::empty());
        while i < 20
            invariant
                i <= 20,
                text@ == hex(self.bytes@.subrange(0, i as int)),
            decreases 20 - i,
        {
            let byte = self.bytes[i];
            let ghost before = text@;
            text.append(hex_str(byte / 16));
            text.append(hex_str(byte % 16));
            proof {
                let longer = self.bytes@.subrange(0, i + 1);
                assert(longer.drop_last() =~= self.bytes@.subrange(0, i as int));
                assert(longer.last() == byte);
                assert(text@ =~= before + seq![hex_char(byte / 16), hex_char(byte % 16)]);
            }
            i = i + 1;
        }
        assert(self.bytes@.subrange(0, 20) =~= self.bytes@);
        text
    }

    /// Whether two identifiers name the same commit.
    pub fn same(&self, other: &CommitId) -> (equal: bool)
        ensures
            equal == (*self == *other),
    {
        let mut i: usize = 0;
        while i < 20
            invariant
                i <= 20,
                forall|j: int| 0 <= j < i ==> self.bytes[j] == other.bytes[j],
            decreases 20 - i,
        {
            if self.bytes[i] != other.bytes[i] {
                return false;
            }
            i = i + 1;
        }
        assert(self.bytes =~= other.bytes);
        true
    }
}

} // verus!
