//! The owned-allocation wrapper: adoption, read-only views, and release.

use vstd::prelude::*;

use crate::utf8::first_zero_index;
use crate::utf8::is_utf8;

verus! {

/// Base address recorded for an empty adoption with a null address: a fixed
/// non-null stand-in that is never dereferenced and never freed.
pub const SENTINEL_ADDR: usize = 1;

/// Why an adoption was refused. Ownership of the original region is never
/// taken on failure.
#[derive(Clone, Copy, Debug, PartialEq, Eq, Structural)]
pub enum AdoptError {
    /// The address was null where a non-empty allocation was required.
    NullAddress,
    /// The scanned text bytes were not well-formed UTF-8.
    InvalidEncoding,
}

/// One step of a release: destroying the element at an index, or handing the
/// base address of the backing region to the deallocator.
#[derive(Clone, Copy, Debug, PartialEq, Eq, Structural)]
pub enum ReleaseAction {
    DestroyElement { index: usize },
    Free { addr: usize },
}

/// An adopted allocation: the sole owner of the values at a foreign base
/// address, exposing them read-only until it is released by move.
pub struct Malloc<T> {
    /// Base address of the region; never zero.
    addr: usize,
    /// Whether a real allocation backs the region. When false, `addr` is the
    /// sentinel and there is nothing to destroy or free.
    backed: bool,
    /// The adopted values, in address order.
    items: Vec<T>,
    /// Whether the owned region extends one byte past the visible items,
    /// over a terminator byte.
    terminated: bool,
}

impl<T> View for Malloc<T> {
    type V = Seq<T>;

    /// The visible contents: the adopted values in address order.
    closed spec fn view(&self) -> Seq<T> {
        self.items@
    }
}

impl<T> Malloc<T> {
    /// The base address the wrapper records; the sentinel when no real
    /// allocation backs it.
    pub closed spec fn base_addr(self) -> usize {
        self.addr
    }

    /// Whether a real allocation backs the wrapper, so that release owes the
    /// deallocator exactly one call.
    pub closed spec fn is_real(self) -> bool {
        self.backed
    }

    /// How many units (elements, or bytes for text) the owned region spans:
    /// the visible items plus the terminator byte when one is owned.
    pub closed spec fn owned_len(self) -> nat {
        self@.len() + if self.terminated { 1nat } else { 0nat }
    }

    /// Well-formedness: the recorded address is never null, a wrapper
    /// without a real allocation is the empty sentinel wrapper, and an owned
    /// terminator leaves the region size representable.
    pub closed spec fn wf(self) -> bool {
        &&& self.addr != 0
        &&& !self.backed ==> self.addr == SENTINEL_ADDR && self@.len() == 0 && !self.terminated
        &&& self.terminated ==> self@.len() < usize::MAX
    }

    /// Adopts one value of type `T` at `addr`. The caller asserts that the
    /// address is non-null and was produced by the matching allocator for
    /// exactly one value.
    pub fn new(addr: usize, value: T) -> (r: Malloc<T>)
        requires
            addr != 0,
        ensures
            r.wf(),
            r@ =~= seq![value],
            r.base_addr() == addr,
            r.is_real(),
            r.owned_len() == 1,
    {
        let mut items: Vec<T> = Vec::new();
        items.push(value);
        Malloc { addr, backed: true, items, terminated: false }
    }

    /// Adopts a contiguous run of `count` values at `addr`, handed over in
    /// `items` in address order.
    ///
    /// A zero count succeeds even for the null address: the wrapper then
    /// records the sentinel and owes the deallocator nothing. A non-zero
    /// count with a null address is refused, and ownership is not taken.
    pub fn from_array(addr: usize, count: usize, items: Vec<T>) -> (r: Result<Malloc<T>, AdoptError>)
        requires
            addr != 0 ==> items@.len() == count,
            addr == 0 ==> items@.len() == 0,
        ensures
            addr == 0 && count > 0 ==> (r matches Err(e) && e == AdoptError::NullAddress),
            addr == 0 && count == 0 ==> (r matches Ok(m) && m.wf() && m@ =~= Seq::<T>::empty()
                && m.base_addr() == SENTINEL_ADDR && !m.is_real() && m.owned_len() == 0),
            addr != 0 ==> (r matches Ok(m) && m.wf() && m@ == items@ && m.base_addr() == addr
                && m.is_real() && m.owned_len() == count),
    {
        if addr == 0 {
            if count == 0 {
                Ok(Malloc { addr: SENTINEL_ADDR, backed: false, items, terminated: false })
            } else {
                Err(AdoptError::NullAddress)
            }
        } else {
            Ok(Malloc { addr, backed: true, items, terminated: false })
        }
    }

    /// The number of visible elements.
    pub fn len(&self) -> (n: usize)
        ensures
            n == self@.len(),
    {
        self.items.len()
    }

    /// Read-only view of the visible elements, in address order.
    pub fn as_slice(&self) -> (r: &[T])
        ensures
            r@ == self@,
    {
        self.items.as_slice()
    }

    /// Read-only view of the element at `i`.
    pub fn get(&self, i: usize) -> (r: &T)
        requires
            i < self@.len(),
        ensures
            *r == self@[i as int],
    {
        &self.items[i]
    }

    /// How many units the owned region spans, terminator included.
    pub fn owned_size(&self) -> (n: usize)
        requires
            self.wf(),
        ensures
            n == self.owned_len(),
    {
        if self.terminated {
            self.items.len() + 1
        } else {
            self.items.len()
        }
    }

    /// Releases the wrapper: consumes it (destroying the adopted values) and
    /// returns the actions owed for the region, namely one destruction per
    /// element in ascending index order, then one deallocation of the base
    /// address unless only the sentinel is recorded.
    pub fn release(self) -> (plan: Vec<ReleaseAction>)
        requires
            self.wf(),
        ensures
            plan@ == spec_release_plan(self),
    {
        let ghost me = self;
        let Malloc { addr, backed, items, terminated: _ } = self;
        let count = items.len();
        let mut plan: Vec<ReleaseAction> = Vec::new();
        let mut i: usize = 0;
        while i < count
            invariant
                i <= count,
                count == me@.len(),
                plan@ =~= Seq::new(i as nat, |k: int| ReleaseAction::DestroyElement { index: k as usize }),
            decreases count - i,
        {
            plan.push(ReleaseAction::DestroyElement { index: i });
            i = i + 1;
        }
        if backed {
            plan.push(ReleaseAction::Free { addr });
        }
        proof {
            assert(plan@ =~= spec_release_plan(me));
        }
        plan
    }
}

impl Malloc<u8> {
    /// Adopts a nul-terminated text buffer at `addr`, handed over in `bytes`
    /// (which must reach the terminator) in address order.
    ///
    /// Refused for the null address. Otherwise the bytes strictly before the
    /// first zero byte are the candidate text: if they are well-formed UTF-8
    /// the wrapper adopts them plus the terminator byte, exposing only the
    /// text; if not, the adoption is refused and ownership is not taken.
    pub fn from_c_str(addr: usize, bytes: Vec<u8>) -> (r: Result<Malloc<u8>, AdoptError>)
        requires
            addr != 0 ==> bytes@.contains(0u8),
        ensures
            addr == 0 ==> (r matches Err(e) && e == AdoptError::NullAddress),
            addr != 0 && is_utf8(bytes@.subrange(0, first_zero_index(bytes@))) ==> (r matches Ok(m)
                && m.wf() && m@ == bytes@.subrange(0, first_zero_index(bytes@))
                && is_utf8(m@) && m.base_addr() == addr && m.is_real()
                && m.owned_len() == first_zero_index(bytes@) + 1),
            addr != 0 && !is_utf8(bytes@.subrange(0, first_zero_index(bytes@))) ==> (r matches Err(e)
                && e == AdoptError::InvalidEncoding),
    {
        if addr == 0 {
            return Err(AdoptError::NullAddress);
        }
        proof {
            crate::utf8::lemma_first_zero_index(bytes@);
        }
        let text_len = match crate::utf8::find_terminator(&bytes) {
            Some(i) => i,
            None => {
                // Excluded: the precondition says the buffer reaches a
                // terminator byte.
                proof {
                    assert(false);
                }
                0
            },
        };
        if !crate::utf8::validate_utf8(&bytes, text_len) {
            return Err(AdoptError::InvalidEncoding);
        }
        let mut items = bytes;
        items.truncate(text_len);
        Ok(Malloc { addr, backed: true, items, terminated: true })
    }
}

/// Law: every empty view is the same sequence, whatever addresses the
/// wrappers record; an empty adoption is observably equal to any other empty
/// adoption of the same element type.
pub proof fn lemma_empty_views_equal<T>(a: Malloc<T>, b: Malloc<T>)
    requires
        a@.len() == 0,
        b@.len() == 0,
    ensures
        a@ == b@,
{
    assert(a@ =~= b@);
}

/// Law: releasing a well-formed wrapper of `count` visible elements owes
/// exactly `count` destruction actions, one per index in ascending order,
/// followed by exactly one deallocation of the base address when a real
/// allocation backs the wrapper, and by none otherwise.
pub proof fn lemma_release_plan_shape<T>(m: Malloc<T>)
    requires
        m.wf(),
    ensures
        spec_release_plan(m).len() == m@.len() + if m.is_real() {
            1int
        } else {
            0int
        },
        forall|i: int|
            0 <= i < m@.len() ==> spec_release_plan(m)[i] == (ReleaseAction::DestroyElement {
                index: i as usize,
            }),
        forall|i: int|
            0 <= i < spec_release_plan(m).len() ==> (((#[trigger] spec_release_plan(m)[i]) matches ReleaseAction::Free { .. })
                <==> (m.is_real() && i == m@.len())),
        m.is_real() ==> spec_release_plan(m).last() == (ReleaseAction::Free {
            addr: m.base_addr(),
        }),
{
}

/// Law: for a byte sequence `b` without an embedded terminator, the buffer
/// `b` followed by one terminator byte scans to exactly `b`: the first zero
/// byte is the appended one, and the candidate text is `b` itself. Together
/// with the adoption contract, adopting such a buffer at a non-null address
/// succeeds exactly when `b` is well-formed UTF-8, the view then equals `b`,
/// and the owned (and later freed) region spans `b.len() + 1` bytes.
pub proof fn lemma_terminated_text(b: Seq<u8>)
    requires
        !b.contains(0u8),
    ensures
        b.push(0u8).contains(0u8),
        first_zero_index(b.push(0u8)) == b.len(),
        b.push(0u8).subrange(0, b.len() as int) == b,
{
    let s = b.push(0u8);
    assert(s[b.len() as int] == 0u8);
    assert forall|j: int| 0 <= j < b.len() implies s[j] != 0 by {
        assert(s[j] == b[j]);
        assert(!(exists|i: int| 0 <= i < b.len() && b[i] == 0u8));
    }
    crate::utf8::lemma_first_zero_of_prefix(s, b.len() as int);
    assert(s.subrange(0, b.len() as int) =~= b);
}

/// The actions a release performs, in order: one destruction per visible
/// element in ascending index order, then one deallocation of the base
/// address when a real allocation backs the wrapper.
pub open spec fn spec_release_plan<T>(m: Malloc<T>) -> Seq<ReleaseAction> {
    Seq::new(m@.len(), |i: int| ReleaseAction::DestroyElement { index: i as usize }) + if m.is_real() {
        seq![ReleaseAction::Free { addr: m.base_addr() }]
    } else {
        Seq::<ReleaseAction>::empty()
    }
}

} // verus!
