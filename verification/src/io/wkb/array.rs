use crate::builder::staging::{
    is_staged, lemma_staged_last, lemma_staged_push, push_empty, push_length, staged_new,
};
use crate::error::GeoArrowError;
use crate::offsets::{
    is_offsets, lemma_monotone_from_steps, lemma_offsets_ordered, offset_ints, OffsetSize, Offsets,
};
use crate::validity::{
    bit_at, mask_bits, mask_fits, validity_bit, validity_from_bits, validity_len,
};
use arrow_buffer::NullBuffer;
use vstd::prelude::*;
use vstd::slice::slice_subrange;

verus! {

/// The bytes of group `i`: those that the offsets `i` and `i + 1` bound.
pub open spec fn blob_at(values: Seq<u8>, offsets: Seq<int>, i: int) -> Seq<u8> {
    values.subrange(offsets[i], offsets[i + 1])
}

/// The staged buffers of an array of encoded geometries, as mathematical values.
pub struct WkbStage {
    pub values: Seq<u8>,
    pub offsets: Seq<int>,
    pub bits: Seq<bool>,
}

impl WkbStage {
    /// The stage without slots.
    pub open spec fn empty() -> WkbStage {
        WkbStage { values: Seq::empty(), offsets: seq![0int], bits: Seq::empty() }
    }

    /// What holds between any two operations: the offsets start at zero, never decrease and
    /// end at the end of the bytes, and there is one bit per slot.
    pub open spec fn wf(self) -> bool {
        &&& is_staged(self.offsets)
        &&& self.bits.len() == self.offsets.len() - 1
        &&& self.values.len() == self.offsets.last()
    }

    /// The encoded geometries that the stage holds, slot by slot.
    pub open spec fn blobs(self) -> Seq<Option<Seq<u8>>> {
        Seq::new(
            self.bits.len(),
            |i: int|
                if self.bits[i] {
                    Some(blob_at(self.values, self.offsets, i))
                } else {
                    None
                },
        )
    }

    /// The stage after one slot was pushed: the bytes of `blob`, or a null slot.
    pub open spec fn with_slot(self, blob: Option<Seq<u8>>) -> WkbStage {
        match blob {
            Some(bytes) => WkbStage {
                values: self.values + bytes,
                offsets: self.offsets.push(self.offsets.last() + bytes.len()),
                bits: self.bits.push(true),
            },
            None => WkbStage {
                values: self.values,
                offsets: self.offsets.push(self.offsets.last()),
                bits: self.bits.push(false),
            },
        }
    }

    /// Pushing a slot appends exactly that slot.
    pub proof fn lemma_with_slot(self, blob: Option<Seq<u8>>)
        requires
            self.wf(),
        ensures
            self.with_slot(blob).wf(),
            self.with_slot(blob).blobs() == self.blobs().push(blob),
    {
        let t = self.with_slot(blob);
        lemma_staged_last(self.offsets);
        let added: int = match blob {
            Some(bytes) => bytes.len() as int,
            None => 0,
        };
        lemma_staged_push(self.offsets, self.offsets.last() + added);
        let slots = self.bits.len() as int;
        assert forall|i: int| 0 <= i < slots implies t.blobs()[i] == self.blobs()[i] by {
            lemma_monotone_from_steps(self.offsets, 0, i);
            lemma_monotone_from_steps(self.offsets, i, i + 1);
            lemma_monotone_from_steps(self.offsets, i + 1, slots);
            assert(blob_at(t.values, t.offsets, i) =~= blob_at(self.values, self.offsets, i));
        }
        if blob is Some {
            assert(blob_at(t.values, t.offsets, slots) =~= blob->Some_0);
        }
        assert(t.blobs() =~= self.blobs().push(blob));
    }
}

/// What packing the first `n` of `blobs` into one buffer gives, where offsets may go up to
/// `max`: `Overflow` as soon as the bytes outgrow `max`.
pub open spec fn pack(blobs: Seq<Option<Seq<u8>>>, n: int, max: int) -> Result<
    WkbStage,
    GeoArrowError,
>
    decreases n,
{
    if n <= 0 {
        Ok(WkbStage::empty())
    } else {
        match pack(blobs, n - 1, max) {
            Err(e) => Err(e),
            Ok(s) => if blobs[n - 1] is Some && s.offsets.last() + blobs[n - 1]->Some_0.len()
                > max {
                Err(GeoArrowError::Overflow)
            } else {
                Ok(s.with_slot(blobs[n - 1]))
            },
        }
    }
}

/// What was packed is what was handed in.
pub proof fn lemma_pack(blobs: Seq<Option<Seq<u8>>>, n: int, max: int)
    requires
        0 <= n <= blobs.len(),
    ensures
        pack(blobs, n, max) is Ok ==> pack(blobs, n, max)->Ok_0.wf() && pack(
            blobs,
            n,
            max,
        )->Ok_0.blobs() == blobs.subrange(0, n),
        pack(blobs, n, max) is Err ==> pack(blobs, n, max)->Err_0 == GeoArrowError::Overflow,
    decreases n,
{
    if n > 0 {
        lemma_pack(blobs, n - 1, max);
        if pack(blobs, n - 1, max) is Ok {
            let s = pack(blobs, n - 1, max)->Ok_0;
            s.lemma_with_slot(blobs[n - 1]);
            assert(blobs.subrange(0, n - 1).push(blobs[n - 1]) =~= blobs.subrange(0, n));
        }
    } else {
        assert(WkbStage::empty().blobs() =~= blobs.subrange(0, 0));
    }
}

/// Once packing overflows, packing more overflows too.
pub proof fn lemma_pack_stays_err(blobs: Seq<Option<Seq<u8>>>, i: int, n: int, max: int)
    requires
        0 <= i <= n,
        pack(blobs, i, max) is Err,
    ensures
        pack(blobs, n, max) == pack(blobs, i, max),
    decreases n - i,
{
    if i < n {
        lemma_pack_stays_err(blobs, i, n - 1, max);
    }
}

/// The encoded geometries that a vector of optional byte vectors holds.
pub open spec fn blobs_view(blobs: Seq<Option<Vec<u8>>>) -> Seq<Option<Seq<u8>>> {
    Seq::new(
        blobs.len(),
        |i: int|
            match blobs[i] {
                Some(b) => Some(b@),
                None => None,
            },
    )
}

/// Appends `bytes` to `out`.
pub fn append_bytes(out: &mut Vec<u8>, bytes: &[u8])
    ensures
        final(out)@ == old(out)@ + bytes@,
{
    let ghost before = out@;
    let n = bytes.len();
    let mut i: usize = 0;
    while i < n
        invariant
            n == bytes@.len(),
            i <= n,
            out@ == before + bytes@.subrange(0, i as int),
        decreases n - i,
    {
        out.push(bytes[i]);
        assert(out@ =~= before + bytes@.subrange(0, i + 1));
        i += 1;
    }
    assert(bytes@.subrange(0, n as int) =~= bytes@);
}

/// An immutable array of encoded geometries: one optional run of bytes per slot.
pub struct WKBArray<O: OffsetSize> {
    values: Vec<u8>,
    offsets: Offsets<O>,
    validity: Option<NullBuffer>,
}

impl<O: OffsetSize> View for WKBArray<O> {
    type V = Seq<Option<Seq<u8>>>;

    open spec fn view(&self) -> Seq<Option<Seq<u8>>> {
        Seq::new(self.spec_len() as nat, |i: int| self.spec_get(i))
    }
}

impl<O: OffsetSize> WKBArray<O> {
    /// All the bytes, one geometry after the other.
    pub closed spec fn spec_values(&self) -> Seq<u8> {
        self.values@
    }

    /// The offsets into the bytes, one more than there are slots.
    pub closed spec fn spec_offsets(&self) -> Seq<int> {
        self.offsets@
    }

    /// The bits of the validity mask, if there is one.
    pub closed spec fn spec_mask(&self) -> Option<Seq<bool>> {
        mask_bits(self.validity)
    }

    /// What holds of every array: the offsets are valid and stay within the bytes, and the
    /// mask, if any, has one bit per slot.
    #[verifier::type_invariant]
    pub open spec fn wf(&self) -> bool {
        &&& is_offsets(self.spec_offsets())
        &&& self.spec_offsets().last() <= self.spec_values().len()
        &&& mask_fits(self.spec_mask(), self.spec_len())
    }

    /// The number of slots.
    pub open spec fn spec_len(&self) -> int {
        self.spec_offsets().len() - 1
    }

    /// Whether slot `i` is valid.
    pub open spec fn spec_is_valid(&self, i: int) -> bool {
        bit_at(self.spec_mask(), i)
    }

    /// The bytes that the offsets of slot `i` bound, whatever the mask says.
    pub open spec fn spec_value(&self, i: int) -> Seq<u8> {
        blob_at(self.spec_values(), self.spec_offsets(), i)
    }

    /// The bytes in slot `i`, or `None` where the slot is null.
    pub open spec fn spec_get(&self, i: int) -> Option<Seq<u8>> {
        if self.spec_is_valid(i) {
            Some(self.spec_value(i))
        } else {
            None
        }
    }

    /// An array from its parts, or the first reason why they do not fit together:
    /// `ValidityLength` where the mask does not have one bit per slot, else `OffsetMismatch`
    /// where the last offset is not the number of bytes.
    pub fn try_new(values: Vec<u8>, offsets: Offsets<O>, validity: Option<NullBuffer>) -> (r:
        Result<Self, GeoArrowError>)
        ensures
            r is Ok <==> mask_fits(mask_bits(validity), offsets@.len() - 1) && offsets@.last()
                == values@.len(),
            r is Ok ==> r->Ok_0.spec_values() == values@ && r->Ok_0.spec_offsets() == offsets@
                && r->Ok_0.spec_mask() == mask_bits(validity),
            r is Err ==> r->Err_0 == if !mask_fits(mask_bits(validity), offsets@.len() - 1) {
                GeoArrowError::ValidityLength
            } else {
                GeoArrowError::OffsetMismatch { level: 0 }
            },
    {
        match validity_len(&validity) {
            Some(n) => {
                if n != offsets.len_proxy() {
                    return Err(GeoArrowError::ValidityLength);
                }
            },
            None => {},
        }
        if offsets.last() != values.len() {
            return Err(GeoArrowError::OffsetMismatch { level: 0 });
        }
        proof {
            use_type_invariant(&offsets);
        }
        Ok(WKBArray { values, offsets, validity })
    }

    /// The array that holds `blobs`, packed into one buffer.
    ///
    /// Fails with `Overflow` where the bytes outgrow the offset width.
    pub fn from_blobs(blobs: &Vec<Option<Vec<u8>>>) -> (r: Result<Self, GeoArrowError>)
        ensures
            r is Ok <==> pack(blobs_view(blobs@), blobs@.len() as int, O::max_value()) is Ok,
            r is Ok ==> r->Ok_0@ == blobs_view(blobs@),
            r is Err ==> r->Err_0 == GeoArrowError::Overflow,
    {
        let ghost bv = blobs_view(blobs@);
        let n = blobs.len();
        let mut values: Vec<u8> = Vec::new();
        let mut offsets: Vec<O> = staged_new(n);
        let mut bits: Vec<bool> = Vec::new();
        let mut i: usize = 0;
        while i < n
            invariant
                n == blobs@.len(),
                i <= n,
                bv == blobs_view(blobs@),
                pack(bv, i as int, O::max_value()) == Ok::<WkbStage, GeoArrowError>(
                    WkbStage { values: values@, offsets: offset_ints(offsets@), bits: bits@ },
                ),
            decreases n - i,
        {
            proof {
                lemma_pack(bv, i as int, O::max_value());
            }
            match &blobs[i] {
                Some(b) => {
                    assert(bv[i as int] == Some(b@));
                    match push_length(&mut offsets, b.len()) {
                        Ok(_) => {},
                        Err(e) => {
                            proof {
                                lemma_pack_stays_err(bv, i + 1, n as int, O::max_value());
                            }
                            return Err(e);
                        },
                    }
                    append_bytes(&mut values, b.as_slice());
                    bits.push(true);
                },
                None => {
                    assert(bv[i as int] is None);
                    push_empty(&mut offsets);
                    bits.push(false);
                },
            }
            i += 1;
        }
        let ghost packed = WkbStage { values: values@, offsets: offset_ints(offsets@), bits: bits@ };
        proof {
            lemma_pack(bv, n as int, O::max_value());
            assert(bv.subrange(0, n as int) =~= bv);
        }
        let _len = values.len();
        let offsets = Offsets::new(offsets);
        let validity = validity_from_bits(bits);
        proof {
            use_type_invariant(&offsets);
        }
        let r = WKBArray { values, offsets, validity };
        proof {
            assert(r@ =~= packed.blobs());
        }
        Ok(r)
    }

    /// The number of slots.
    pub fn len(&self) -> (n: usize)
        ensures
            n == self.spec_len(),
            n == self@.len(),
    {
        self.offsets.len_proxy()
    }

    /// Whether slot `i` is valid.
    pub fn is_valid(&self, i: usize) -> (r: bool)
        requires
            i < self.spec_len(),
        ensures
            r == self.spec_is_valid(i as int),
    {
        proof {
            use_type_invariant(self);
        }
        validity_bit(&self.validity, i)
    }

    /// Whether slot `i` is null.
    pub fn is_null(&self, i: usize) -> (r: bool)
        requires
            i < self.spec_len(),
        ensures
            r == !self.spec_is_valid(i as int),
            r == (self@[i as int] is None),
    {
        !self.is_valid(i)
    }

    /// The bytes that the offsets of slot `i` bound, whatever the mask says.
    pub fn value(&self, i: usize) -> (r: &[u8])
        requires
            i < self.spec_len(),
        ensures
            r@ == self.spec_value(i as int),
    {
        proof {
            use_type_invariant(self);
            lemma_offsets_ordered(self.spec_offsets(), i + 1, self.spec_len());
        }
        let (start, end) = self.offsets.start_end(i);
        slice_subrange(self.values.as_slice(), start, end)
    }

    /// The bytes in slot `i`, or `None` where the slot is null.
    pub fn get(&self, i: usize) -> (r: Option<&[u8]>)
        requires
            i < self.spec_len(),
        ensures
            match r {
                Some(b) => self@[i as int] == Some(b@),
                None => self@[i as int] is None,
            },
    {
        if self.is_null(i) {
            None
        } else {
            Some(self.value(i))
        }
    }
}

} // verus!
