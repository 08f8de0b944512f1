//! Validation and wire codec for a message's parent references.
//!
//! A parents block holds one kind tag and a bounded, deduplicated,
//! canonically ordered collection of predecessor identifiers. Every
//! invariant checked at construction is re-checked when decoding, because
//! decoding is the only path reachable by an adversarial peer. Requiring
//! canonical sorted order at the wire level makes the serialized form
//! deterministic, so two semantically identical blocks always produce
//! identical bytes.

use vstd::prelude::*;

use crate::error::{MessageUnpackError, ValidationError};
use crate::message_id::{lex_lt, lemma_lex_lt_neq, lemma_lex_lt_trans, MessageId, MESSAGE_ID_LENGTH};

verus! {

broadcast use crate::message_id::lemma_message_id_len;

/// Smallest permitted number of parents in a block.
pub const MESSAGE_PARENTS_MIN: usize = 1;

/// Largest permitted number of parents in a block.
pub const MESSAGE_PARENTS_MAX: usize = 8;

/// Minimum number of strong parents a complete message must declare across
/// all of its parents blocks combined. The owning message structure, which
/// aggregates several blocks, enforces this; it is exposed here because the
/// constant is part of this layer's contract.
pub const MESSAGE_MIN_STRONG_PARENTS: usize = 1;

/// Whether a parents count lies in the permitted range.
pub open spec fn parents_count_ok(count: int) -> bool {
    1 <= count <= 8
}

/// The role a block of parent references plays in approval semantics.
#[derive(Clone, Copy, Debug, PartialEq, Eq, Structural)]
pub enum ParentsKind {
    /// Parents whose past cone is liked.
    Strong,
    /// Parents whose past cone is disliked but which are themselves liked.
    Weak,
    /// Parents that are disliked.
    Disliked,
    /// Parents that are liked.
    Liked,
}

/// The wire byte of a parents kind.
pub open spec fn kind_byte(kind: ParentsKind) -> u8 {
    match kind {
        ParentsKind::Strong => 0,
        ParentsKind::Weak => 1,
        ParentsKind::Disliked => 2,
        ParentsKind::Liked => 3,
    }
}

/// The parents kind a wire byte denotes, if any.
pub open spec fn kind_of_byte(value: u8) -> Option<ParentsKind> {
    if value == 0 {
        Some(ParentsKind::Strong)
    } else if value == 1 {
        Some(ParentsKind::Weak)
    } else if value == 2 {
        Some(ParentsKind::Disliked)
    } else if value == 3 {
        Some(ParentsKind::Liked)
    } else {
        None
    }
}

impl ParentsKind {
    /// Maps a wire byte to its kind; bytes outside the enumeration are
    /// rejected.
    pub fn try_from(value: u8) -> (r: Result<ParentsKind, ValidationError>)
        ensures
            match r {
                Ok(kind) => kind_of_byte(value) == Some(kind),
                Err(e) => kind_of_byte(value) is None && e == ValidationError::InvalidParentsKind(
                    value,
                ),
            },
    {
        match value {
            0 => Ok(ParentsKind::Strong),
            1 => Ok(ParentsKind::Weak),
            2 => Ok(ParentsKind::Disliked),
            3 => Ok(ParentsKind::Liked),
            _ => Err(ValidationError::InvalidParentsKind(value)),
        }
    }

    /// The wire byte of this kind.
    pub fn to_u8(&self) -> (r: u8)
        ensures
            r == kind_byte(*self),
    {
        match self {
            ParentsKind::Strong => 0,
            ParentsKind::Weak => 1,
            ParentsKind::Disliked => 2,
            ParentsKind::Liked => 3,
        }
    }
}

/// The raw bytes of each identifier in a collection, in order.
pub open spec fn ids_view(ids: Seq<MessageId>) -> Seq<Seq<u8>> {
    ids.map_values(|m: MessageId| m@)
}

/// Whether consecutive identifiers are strictly ascending in lexicographic
/// byte order; a strictly increasing sequence is automatically deduplicated.
pub open spec fn unique_sorted(refs: Seq<Seq<u8>>) -> bool {
    forall|i: int| 0 <= i && i + 1 < refs.len() ==> #[trigger] lex_lt(refs[i], refs[i + 1])
}

/// The mathematical content of a parents block: its kind and the raw bytes
/// of each referenced identifier, in order.
pub struct ParentsBlockView {
    /// The block's kind tag.
    pub kind: ParentsKind,
    /// The serialized bytes of each referenced identifier.
    pub references: Seq<Seq<u8>>,
}

impl ParentsBlockView {
    /// Every invariant of an accepted block: a permitted count, full-length
    /// identifiers, and strictly ascending order.
    pub open spec fn well_formed(&self) -> bool {
        &&& parents_count_ok(self.references.len() as int)
        &&& forall|i: int|
            0 <= i < self.references.len() ==> (#[trigger] self.references[i]).len()
                == MESSAGE_ID_LENGTH
        &&& unique_sorted(self.references)
    }

    /// The serialized form: kind byte, count byte, then each identifier's
    /// bytes in the block's order.
    pub open spec fn spec_pack(&self) -> Seq<u8> {
        seq![kind_byte(self.kind), self.references.len() as u8] + self.references.flatten()
    }
}

/// A validated, immutable block of parent references, all of one kind.
///
/// A value of this type always satisfies the block invariants: its count is
/// permitted and its identifiers are pairwise distinct and strictly
/// ascending. Any change produces a new block through [`ParentsBlock::new`].
#[derive(Clone, Debug, PartialEq, Eq)]
pub struct ParentsBlock {
    kind: ParentsKind,
    references: Vec<MessageId>,
}

impl View for ParentsBlock {
    type V = ParentsBlockView;

    closed spec fn view(&self) -> ParentsBlockView {
        ParentsBlockView { kind: self.kind, references: ids_view(self.references@) }
    }
}

/// Checks that a parents count lies in the permitted range.
fn validate_parents_count(count: usize) -> (r: Result<(), ValidationError>)
    ensures
        match r {
            Ok(()) => parents_count_ok(count as int),
            Err(e) => !parents_count_ok(count as int) && e == ValidationError::InvalidParentsCount(
                count,
            ),
        },
{
    if count < MESSAGE_PARENTS_MIN || count > MESSAGE_PARENTS_MAX {
        Err(ValidationError::InvalidParentsCount(count))
    } else {
        Ok(())
    }
}

/// Checks that identifiers are pairwise distinct and strictly ascending in
/// lexicographic byte order.
fn validate_parents_unique_sorted(parents: &Vec<MessageId>) -> (r: Result<(), ValidationError>)
    ensures
        match r {
            Ok(()) => unique_sorted(ids_view(parents@)),
            Err(e) => !unique_sorted(ids_view(parents@)) && e
                == ValidationError::ParentsNotUniqueSorted,
        },
{
    let n = parents.len();
    if n == 0 {
        return Ok(());
    }
    let mut i: usize = 1;
    while i < n
        invariant
            1 <= i <= n,
            n == parents@.len(),
            forall|j: int|
                0 <= j && j + 1 < i ==> #[trigger] lex_lt(ids_view(parents@)[j], ids_view(
                    parents@,
                )[j + 1]),
        decreases n - i,
    {
        if !crate::message_id::id_lt(&parents[i - 1], &parents[i]) {
            proof {
                let refs = ids_view(parents@);
                assert(refs[i - 1] == parents@[i - 1]@);
                assert(refs[i - 1 + 1] == parents@[i as int]@);
                assert(!lex_lt(refs[i - 1], refs[i - 1 + 1]));
                assert(!unique_sorted(refs));
            }
            return Err(ValidationError::ParentsNotUniqueSorted);
        }
        i = i + 1;
    }
    Ok(())
}

impl ParentsBlock {
    /// Validates a kind and an ordered identifier collection and wraps them
    /// as a block. Fails on a count outside the permitted range, then on
    /// identifiers that are not strictly ascending.
    pub fn new(kind: ParentsKind, references: Vec<MessageId>) -> (r: Result<
        ParentsBlock,
        ValidationError,
    >)
        ensures
            r is Ok <==> (parents_count_ok(references@.len() as int) && unique_sorted(
                ids_view(references@),
            )),
            match r {
                Ok(pb) => pb@ == (ParentsBlockView { kind, references: ids_view(references@) })
                    && pb@.well_formed(),
                Err(e) => e == if !parents_count_ok(references@.len() as int) {
                    ValidationError::InvalidParentsCount(references@.len() as usize)
                } else {
                    ValidationError::ParentsNotUniqueSorted
                },
            },
    {
        if let Err(e) = validate_parents_count(references.len()) {
            return Err(e);
        }
        if let Err(e) = validate_parents_unique_sorted(&references) {
            return Err(e);
        }
        let pb = ParentsBlock { kind, references };
        assert(pb@.well_formed()) by {
            assert(forall|i: int|
                0 <= i < pb@.references.len() ==> (#[trigger] pb@.references[i]).len()
                    == MESSAGE_ID_LENGTH);
        }
        Ok(pb)
    }

    /// Number of identifiers in the block.
    pub fn len(&self) -> (r: usize)
        ensures
            r == self@.references.len(),
    {
        self.references.len()
    }

    /// The block's kind tag.
    pub fn parents_kind(&self) -> (r: ParentsKind)
        ensures
            r == self@.kind,
    {
        self.kind
    }

    /// The identifier at a position in the block's order.
    pub fn get(&self, index: usize) -> (r: &MessageId)
        requires
            index < self@.references.len(),
        ensures
            r@ == self@.references[index as int],
    {
        &self.references[index]
    }

    /// All identifiers, in the block's order.
    pub fn references(&self) -> (r: &Vec<MessageId>)
        ensures
            ids_view(r@) == self@.references,
    {
        &self.references
    }

    /// Serialized length: one kind byte, one count byte, then the
    /// identifiers.
    pub fn packed_len(&self) -> (r: usize)
        requires
            self@.well_formed(),
        ensures
            r == self@.spec_pack().len(),
    {
        proof {
            lemma_flatten_fixed_len(self@.references);
        }
        2 + self.references.len() * MESSAGE_ID_LENGTH
    }

    /// Serializes the block: kind byte, count byte, then each identifier's
    /// bytes in the block's existing, already validated order.
    pub fn pack(&self) -> (r: Vec<u8>)
        requires
            self@.well_formed(),
        ensures
            r@ == self@.spec_pack(),
    {
        let mut out: Vec<u8> = Vec::new();
        out.push(self.kind.to_u8());
        out.push(self.references.len() as u8);
        let n = self.references.len();
        let mut i: usize = 0;
        while i < n
            invariant
                n == self.references@.len(),
                n <= 8,
                i <= n,
                out@ == seq![kind_byte(self@.kind), n as u8] + self@.references.take(
                    i as int,
                ).flatten(),
            decreases n - i,
        {
            let id = self.references[i];
            let idb = id.as_bytes();
            let ghost out_before = out@;
            let mut j: usize = 0;
            while j < 32
                invariant
                    j <= 32,
                    id@.len() == 32,
                    idb@ == id@,
                    out@ == out_before + id@.take(j as int),
                decreases 32 - j,
            {
                out.push(idb[j]);
                assert(id@.take(j + 1) =~= id@.take(j as int).push(id@[j as int]));
                j = j + 1;
            }
            proof {
                assert(id@.take(32) =~= id@);
                assert(self@.references.take(i + 1) =~= self@.references.take(i as int).push(
                    self@.references[i as int],
                ));
                self@.references.take(i as int).lemma_flatten_push(self@.references[i as int]);
                assert(out@ =~= seq![kind_byte(self@.kind), n as u8] + self@.references.take(
                    i + 1,
                ).flatten());
            }
            i = i + 1;
        }
        proof {
            assert(self@.references.take(n as int) =~= self@.references);
            assert(out@ =~= self@.spec_pack());
        }
        out
    }

    /// The exact result of reading one parents block from the front of a
    /// byte stream: the parsed content with the number of bytes consumed, or
    /// the error. The kind byte is examined first, then the count byte, then
    /// the identifiers and their order.
    pub open spec fn spec_unpack(bytes: Seq<u8>) -> Result<(ParentsBlockView, int), MessageUnpackError> {
        if bytes.len() < 1 {
            Err(MessageUnpackError::UnexpectedEof)
        } else if kind_of_byte(bytes[0]) is None {
            Err(MessageUnpackError::Validation(ValidationError::InvalidParentsKind(bytes[0])))
        } else if bytes.len() < 2 {
            Err(MessageUnpackError::UnexpectedEof)
        } else if !parents_count_ok(bytes[1] as int) {
            Err(
                MessageUnpackError::Validation(
                    ValidationError::InvalidParentsCount(bytes[1] as usize),
                ),
            )
        } else if bytes.len() < 2 + 32 * (bytes[1] as int) {
            Err(MessageUnpackError::UnexpectedEof)
        } else {
            let refs = Seq::new(
                bytes[1] as nat,
                |k: int| bytes.subrange(2 + 32 * k, 2 + 32 * k + 32),
            );
            if !unique_sorted(refs) {
                Err(MessageUnpackError::Validation(ValidationError::ParentsNotUniqueSorted))
            } else {
                Ok(
                    (
                        ParentsBlockView { kind: kind_of_byte(bytes[0]).unwrap(), references: refs },
                        2 + 32 * (bytes[1] as int),
                    ),
                )
            }
        }
    }

    /// Reads one block from the front of the buffer, re-validating every
    /// construction-time invariant because wire data is untrusted, and
    /// returns the block with the number of bytes consumed.
    pub fn unpack(bytes: &[u8]) -> (r: Result<(ParentsBlock, usize), MessageUnpackError>)
        ensures
            match r {
                Ok((pb, consumed)) => Self::spec_unpack(bytes@) == Ok::<
                    (ParentsBlockView, int),
                    MessageUnpackError,
                >((pb@, consumed as int)) && pb@.well_formed(),
                Err(e) => Self::spec_unpack(bytes@) == Err::<
                    (ParentsBlockView, int),
                    MessageUnpackError,
                >(e),
            },
    {
        if bytes.len() < 1 {
            return Err(MessageUnpackError::UnexpectedEof);
        }
        let kind = match ParentsKind::try_from(bytes[0]) {
            Ok(kind) => kind,
            Err(e) => {
                return Err(MessageUnpackError::Validation(e));
            },
        };
        if bytes.len() < 2 {
            return Err(MessageUnpackError::UnexpectedEof);
        }
        let count = bytes[1];
        if let Err(e) = validate_parents_count(count as usize) {
            return Err(MessageUnpackError::Validation(e));
        }
        let need: usize = 2 + 32 * (count as usize);
        if bytes.len() < need {
            return Err(MessageUnpackError::UnexpectedEof);
        }
        let mut references: Vec<MessageId> = Vec::new();
        let mut k: usize = 0;
        while k < count as usize
            invariant
                count as usize <= 8,
                k <= count as usize,
                bytes@.len() >= 2 + 32 * (count as int),
                references@.len() == k,
                forall|t: int|
                    0 <= t < k ==> (#[trigger] references@[t])@ == bytes@.subrange(
                        2 + 32 * t,
                        2 + 32 * t + 32,
                    ),
            decreases count as usize - k,
        {
            let mut idb = [0u8; 32];
            let base: usize = 2 + 32 * k;
            let mut j: usize = 0;
            while j < 32
                invariant
                    j <= 32,
                    base == 2 + 32 * (k as int),
                    k < count as usize,
                    count as usize <= 8,
                    bytes@.len() >= 2 + 32 * (count as int),
                    forall|t: int| 0 <= t < j ==> idb@[t] == bytes@[base + t],
                decreases 32 - j,
            {
                idb[j] = bytes[base + j];
                j = j + 1;
            }
            assert(idb@ =~= bytes@.subrange(2 + 32 * (k as int), 2 + 32 * (k as int) + 32));
            references.push(MessageId::new(idb));
            k = k + 1;
        }
        if let Err(e) = validate_parents_unique_sorted(&references) {
            assert(ids_view(references@) =~= Seq::new(
                count as nat,
                |t: int| bytes@.subrange(2 + 32 * t, 2 + 32 * t + 32),
            ));
            return Err(MessageUnpackError::Validation(e));
        }
        proof {
            assert(ids_view(references@) =~= Seq::new(
                count as nat,
                |t: int| bytes@.subrange(2 + 32 * t, 2 + 32 * t + 32),
            ));
        }
        let pb = ParentsBlock { kind, references };
        assert(pb@.well_formed());
        Ok((pb, need))
    }
}

/// The flattened identifier bytes of a block have exactly thirty-two bytes
/// per identifier.
pub proof fn lemma_flatten_fixed_len(refs: Seq<Seq<u8>>)
    requires
        forall|i: int| 0 <= i < refs.len() ==> (#[trigger] refs[i]).len() == MESSAGE_ID_LENGTH,
    ensures
        refs.flatten().len() == 32 * refs.len(),
    decreases refs.len(),
{
    if refs.len() == 0 {
        assert(refs.flatten() =~= Seq::<u8>::empty());
    } else {
        assert(refs.drop_first()[0] == refs[1] || refs.len() == 1);
        assert(forall|i: int|
            0 <= i < refs.drop_first().len() ==> (#[trigger] refs.drop_first()[i]).len()
                == MESSAGE_ID_LENGTH);
        lemma_flatten_fixed_len(refs.drop_first());
    }
}

/// Within the flattened identifier bytes, the chunk at an identifier's
/// position is exactly that identifier's bytes.
pub proof fn lemma_flatten_fixed_chunk(refs: Seq<Seq<u8>>, k: int)
    requires
        forall|i: int| 0 <= i < refs.len() ==> (#[trigger] refs[i]).len() == MESSAGE_ID_LENGTH,
        0 <= k < refs.len(),
    ensures
        refs.flatten().subrange(32 * k, 32 * k + 32) == refs[k],
    decreases k,
{
    lemma_flatten_fixed_len(refs);
    assert(refs.flatten() == refs.first() + refs.drop_first().flatten());
    assert(forall|i: int|
        0 <= i < refs.drop_first().len() ==> (#[trigger] refs.drop_first()[i]).len()
            == MESSAGE_ID_LENGTH);
    lemma_flatten_fixed_len(refs.drop_first());
    if k == 0 {
        assert(refs.flatten().subrange(0, 32) =~= refs[0]);
    } else {
        lemma_flatten_fixed_chunk(refs.drop_first(), k - 1);
        assert(refs.drop_first()[k - 1] == refs[k]);
        assert(refs.flatten().subrange(32 * k, 32 * k + 32) =~= refs.drop_first().flatten()
            .subrange(32 * (k - 1), 32 * (k - 1) + 32));
    }
}

/// In a strictly ascending identifier collection every earlier identifier is
/// lexicographically below every later one.
proof fn lemma_lex_chain(refs: Seq<Seq<u8>>, i: int, j: int)
    requires
        unique_sorted(refs),
        forall|t: int| 0 <= t < refs.len() ==> (#[trigger] refs[t]).len() == MESSAGE_ID_LENGTH,
        0 <= i < j < refs.len(),
    ensures
        lex_lt(refs[i], refs[j]),
    decreases j - i,
{
    if j == i + 1 {
        assert(lex_lt(refs[i], refs[i + 1]));
    } else {
        lemma_lex_chain(refs, i, j - 1);
        assert(lex_lt(refs[j - 1], refs[j - 1 + 1]));
        lemma_lex_lt_trans(refs[i], refs[j - 1], refs[j]);
    }
}

/// Canonical-order invariant: in a well-formed parents block the identifiers
/// are strictly increasing in lexicographic byte order, hence pairwise
/// distinct — no duplicate and no descending pair can be accepted.
pub proof fn lemma_canonical_order(v: ParentsBlockView)
    requires
        v.well_formed(),
    ensures
        forall|i: int, j: int|
            0 <= i < j < v.references.len() ==> lex_lt(
                #[trigger] v.references[i],
                #[trigger] v.references[j],
            ),
        forall|i: int, j: int|
            0 <= i < j < v.references.len() ==> #[trigger] v.references[i]
                != #[trigger] v.references[j],
{
    assert forall|i: int, j: int| 0 <= i < j < v.references.len() implies lex_lt(
        #[trigger] v.references[i],
        #[trigger] v.references[j],
    ) by {
        lemma_lex_chain(v.references, i, j);
    }
    assert forall|i: int, j: int| 0 <= i < j < v.references.len() implies #[trigger] v.references[i]
        != #[trigger] v.references[j] by {
        lemma_lex_chain(v.references, i, j);
        lemma_lex_lt_neq(v.references[i], v.references[j]);
    }
}

/// Round trip: any well-formed parents block content, once serialized, is
/// decoded back unchanged, consuming exactly the serialized bytes.
pub proof fn lemma_parents_round_trip(v: ParentsBlockView)
    requires
        v.well_formed(),
    ensures
        ParentsBlock::spec_unpack(v.spec_pack()) == Ok::<
            (ParentsBlockView, int),
            MessageUnpackError,
        >((v, v.spec_pack().len() as int)),
{
    let b = v.spec_pack();
    lemma_flatten_fixed_len(v.references);
    let n = v.references.len() as int;
    assert(b.len() == 2 + 32 * n);
    assert(b[0] == kind_byte(v.kind));
    assert(b[1] == n as u8);
    assert(kind_of_byte(kind_byte(v.kind)) == Some(v.kind));
    let refs = Seq::new(b[1] as nat, |k: int| b.subrange(2 + 32 * k, 2 + 32 * k + 32));
    assert forall|k: int| 0 <= k < n implies refs[k] == v.references[k] by {
        lemma_flatten_fixed_chunk(v.references, k);
        assert(b.subrange(2 + 32 * k, 2 + 32 * k + 32) =~= v.references.flatten().subrange(
            32 * k,
            32 * k + 32,
        ));
    }
    assert(refs =~= v.references);
    assert(ParentsBlock::spec_unpack(b) == Ok::<(ParentsBlockView, int), MessageUnpackError>(
        (ParentsBlockView { kind: v.kind, references: refs }, 2 + 32 * n),
    ));
    assert(ParentsBlockView { kind: v.kind, references: refs } == v);
}

} // verus!
