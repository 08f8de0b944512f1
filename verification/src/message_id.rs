//! Fixed-length message identifiers and their lexicographic order.

use vstd::prelude::*;

verus! {

/// Number of bytes in a serialized message identifier.
pub const MESSAGE_ID_LENGTH: usize = 32;

/// A fixed-length content hash that identifies a message.
///
/// Identifiers are produced externally, by hashing a message's serialized
/// bytes, and are merely carried and compared here. They are totally ordered
/// by byte-wise lexicographic comparison of their raw bytes.
#[derive(Clone, Copy, Debug, PartialEq, Eq)]
pub struct MessageId {
    bytes: [u8; 32],
}

impl View for MessageId {
    type V = Seq<u8>;

    closed spec fn view(&self) -> Seq<u8> {
        self.bytes@
    }
}

/// An identifier's bytes always have the fixed identifier length.
pub broadcast proof fn lemma_message_id_len(m: MessageId)
    ensures
        (#[trigger] m@).len() == MESSAGE_ID_LENGTH,
{
}

/// Strict lexicographic order on equal-length byte strings: at some position
/// `a` holds the smaller byte, and all bytes before that position agree.
pub open spec fn lex_lt(a: Seq<u8>, b: Seq<u8>) -> bool {
    exists|i: int|
        0 <= i < a.len() && i < b.len() && (#[trigger] a[i]) < b[i] && (forall|j: int|
            0 <= j < i ==> a[j] == b[j])
}

/// Strict lexicographic order is transitive.
pub proof fn lemma_lex_lt_trans(a: Seq<u8>, b: Seq<u8>, c: Seq<u8>)
    requires
        a.len() == b.len(),
        b.len() == c.len(),
        lex_lt(a, b),
        lex_lt(b, c),
    ensures
        lex_lt(a, c),
{
    let i = choose|i: int|
        0 <= i < a.len() && i < b.len() && (#[trigger] a[i]) < b[i] && (forall|j: int|
            0 <= j < i ==> a[j] == b[j]);
    let k = choose|k: int|
        0 <= k < b.len() && k < c.len() && (#[trigger] b[k]) < c[k] && (forall|j: int|
            0 <= j < k ==> b[j] == c[j]);
    if i < k {
        assert(a[i] < c[i]);
        assert(forall|j: int| 0 <= j < i ==> a[j] == c[j]);
    } else if k < i {
        assert(a[k] < c[k]);
        assert(forall|j: int| 0 <= j < k ==> a[j] == c[j]);
    } else {
        assert(a[i] < c[i]);
        assert(forall|j: int| 0 <= j < i ==> a[j] == c[j]);
    }
}

/// Two byte strings related by the strict order differ.
pub proof fn lemma_lex_lt_neq(a: Seq<u8>, b: Seq<u8>)
    requires
        lex_lt(a, b),
    ensures
        a != b,
{
    let i = choose|i: int|
        0 <= i < a.len() && i < b.len() && (#[trigger] a[i]) < b[i] && (forall|j: int|
            0 <= j < i ==> a[j] == b[j]);
    assert(a[i] != b[i]);
}

impl MessageId {
    /// Wraps raw bytes as an identifier.
    pub fn new(bytes: [u8; 32]) -> (r: MessageId)
        ensures
            r@ == bytes@,
    {
        MessageId { bytes }
    }

    /// The raw bytes of the identifier.
    pub fn as_bytes(&self) -> (r: &[u8; 32])
        ensures
            r@ == self@,
    {
        &self.bytes
    }
}

/// The lowercase hexadecimal digit of a value below sixteen.
pub open spec fn hex_digit(n: int) -> char {
    if n == 0 {
        '0'
    } else if n == 1 {
        '1'
    } else if n == 2 {
        '2'
    } else if n == 3 {
        '3'
    } else if n == 4 {
        '4'
    } else if n == 5 {
        '5'
    } else if n == 6 {
        '6'
    } else if n == 7 {
        '7'
    } else if n == 8 {
        '8'
    } else if n == 9 {
        '9'
    } else if n == 10 {
        'a'
    } else if n == 11 {
        'b'
    } else if n == 12 {
        'c'
    } else if n == 13 {
        'd'
    } else if n == 14 {
        'e'
    } else {
        'f'
    }
}

/// Lowercase hexadecimal rendering of bytes, two digits per byte.
pub open spec fn hex_of(bytes: Seq<u8>) -> Seq<char>
    decreases bytes.len(),
{
    if bytes.len() == 0 {
        Seq::empty()
    } else {
        hex_of(bytes.drop_last()) + seq![
            hex_digit(bytes.last() as int / 16),
            hex_digit(bytes.last() as int % 16),
        ]
    }
}

/// The lowercase hexadecimal digit of a value below sixteen, as a string.
fn hex_digit_str(n: u8) -> (r: &'static str)
    requires
        n < 16,
    ensures
        r@ == seq![hex_digit(n as int)],
{
    let s: &'static str = match n {
        0 => "0",
        1 => "1",
        2 => "2",
        3 => "3",
        4 => "4",
        5 => "5",
        6 => "6",
        7 => "7",
        8 => "8",
        9 => "9",
        10 => "a",
        11 => "b",
        12 => "c",
        13 => "d",
        14 => "e",
        _ => "f",
    };
    proof {
        reveal_strlit("0");
        reveal_strlit("1");
        reveal_strlit("2");
        reveal_strlit("3");
        reveal_strlit("4");
        reveal_strlit("5");
        reveal_strlit("6");
        reveal_strlit("7");
        reveal_strlit("8");
        reveal_strlit("9");
        reveal_strlit("a");
        reveal_strlit("b");
        reveal_strlit("c");
        reveal_strlit("d");
        reveal_strlit("e");
        reveal_strlit("f");
        assert(s@ =~= seq![hex_digit(n as int)]);
    }
    s
}

impl MessageId {
    /// Lowercase hexadecimal rendering of the identifier, two digits per
    /// byte.
    pub fn to_string(&self) -> (r: String)
        ensures
            r@ == hex_of(self@),
    {
        let mut s = String::new();
        let mut i: usize = 0;
        while i < 32
            invariant
                i <= 32,
                self@.len() == 32,
                s@ == hex_of(self@.take(i as int)),
            decreases 32 - i,
        {
            let b = self.bytes[i];
            s.append(hex_digit_str(b / 16));
            s.append(hex_digit_str(b % 16));
            proof {
                assert(self@.take(i + 1).drop_last() =~= self@.take(i as int));
                assert(self@.take(i + 1).last() == self@[i as int]);
                assert(s@ =~= hex_of(self@.take(i + 1)));
            }
            i = i + 1;
        }
        proof {
            assert(self@.take(32) =~= self@);
        }
        s
    }
}

/// Renders two identifier collections as one list of hexadecimal strings,
/// the first collection's entries before the second's.
pub fn ids_to_strings(first: &Vec<MessageId>, second: &Vec<MessageId>) -> (r: Vec<String>)
    ensures
        r@.len() == first@.len() + second@.len(),
        forall|i: int| 0 <= i < first@.len() ==> (#[trigger] r@[i])@ == hex_of(first@[i]@),
        forall|i: int|
            0 <= i < second@.len() ==> (#[trigger] r@[first@.len() + i])@ == hex_of(second@[i]@),
{
    let mut out: Vec<String> = Vec::new();
    let mut i: usize = 0;
    while i < first.len()
        invariant
            i <= first@.len(),
            out@.len() == i,
            forall|t: int| 0 <= t < i ==> (#[trigger] out@[t])@ == hex_of(first@[t]@),
        decreases first@.len() - i,
    {
        out.push(first[i].to_string());
        i = i + 1;
    }
    let mut j: usize = 0;
    while j < second.len()
        invariant
            j <= second@.len(),
            out@.len() == first@.len() + j,
            forall|t: int| 0 <= t < first@.len() ==> (#[trigger] out@[t])@ == hex_of(first@[t]@),
            forall|t: int|
                0 <= t < j ==> (#[trigger] out@[first@.len() + t])@ == hex_of(second@[t]@),
        decreases second@.len() - j,
    {
        out.push(second[j].to_string());
        j = j + 1;
    }
    out
}

/// Decides the strict lexicographic order between two identifiers by
/// scanning for the first differing byte.
pub fn id_lt(a: &MessageId, b: &MessageId) -> (r: bool)
    ensures
        r == lex_lt(a@, b@),
{
    let mut i: usize = 0;
    while i < 32
        invariant
            i <= 32,
            forall|j: int| 0 <= j < i ==> a@[j] == b@[j],
        decreases 32 - i,
    {
        let x = a.bytes[i];
        let y = b.bytes[i];
        if x < y {
            assert(a@[i as int] < b@[i as int]);
            assert(lex_lt(a@, b@));
            return true;
        }
        if x > y {
            proof {
                if lex_lt(a@, b@) {
                    let k = choose|k: int|
                        0 <= k < a@.len() && k < b@.len() && (#[trigger] a@[k]) < b@[k] && (
                        forall|j: int| 0 <= j < k ==> a@[j] == b@[j]);
                    if k < i as int {
                        assert(a@[k] == b@[k]);
                    } else if k > i as int {
                        assert(a@[i as int] == b@[i as int]);
                    }
                    assert(false);
                }
            }
            return false;
        }
        i = i + 1;
    }
    proof {
        if lex_lt(a@, b@) {
            let k = choose|k: int|
                0 <= k < a@.len() && k < b@.len() && (#[trigger] a@[k]) < b@[k] && (forall|j: int|
                    0 <= j < k ==> a@[j] == b@[j]);
            assert(a@[k] == b@[k]);
            assert(false);
        }
    }
    false
}

} // verus!
