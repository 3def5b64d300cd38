//! Splitting a serialized message into fixed-size fragments, and putting the
//! fragments of a message back together.
use vstd::prelude::*;

use crate::wire::Fragment;
use crate::FRAGMENT_DSIZE;

verus! {

broadcast use vstd::seq_lib::group_seq_properties;

/// Number of fragments needed for `len` bytes: `len / FRAGMENT_DSIZE`
/// rounded up.
pub open spec fn fragment_count(len: nat) -> nat {
    ((len + FRAGMENT_DSIZE - 1) / (FRAGMENT_DSIZE as int)) as nat
}

/// The bytes that fragment `i` of `data` carries.
pub open spec fn chunk(data: Seq<u8>, i: int) -> Seq<u8> {
    let start = i * FRAGMENT_DSIZE;
    let end = if start + FRAGMENT_DSIZE <= data.len() { start + FRAGMENT_DSIZE } else { data.len() as int };
    data.subrange(start, end)
}

/// `n` zero bytes.
pub open spec fn zeros(n: nat) -> Seq<u8> {
    Seq::new(n, |i: int| 0u8)
}

/// `s` followed by zeros up to `FRAGMENT_DSIZE` bytes.
pub open spec fn padded(s: Seq<u8>) -> Seq<u8> {
    s + zeros((FRAGMENT_DSIZE - s.len()) as nat)
}

/// `f` is fragment `i` of `data`.
pub open spec fn is_fragment_of(f: Fragment, data: Seq<u8>, i: int) -> bool {
    &&& f.fragment_index == i
    &&& f.total_n_fragments == fragment_count(data.len())
    &&& f.length == chunk(data, i).len()
    &&& f.data@ == padded(chunk(data, i))
}

/// The data blocks of the first `n` fragments, one after the other.
pub open spec fn joined_data(frags: Seq<Fragment>, n: int) -> Seq<u8>
    decreases n,
{
    if n <= 0 {
        Seq::empty()
    } else {
        joined_data(frags, n - 1) + frags[n - 1].data@
    }
}

/// Splits `data` into `FRAGMENT_DSIZE`-byte fragments. Fragment `i` carries
/// bytes `i * FRAGMENT_DSIZE` onwards, zero-padded, with its index, the
/// total number of fragments and the number of meaningful bytes.
pub fn fragment_data(data: &Vec<u8>) -> (frags: Vec<Fragment>)
    ensures
        frags@.len() == fragment_count(data@.len()),
        forall|i: int| 0 <= i < frags@.len() ==> #[trigger] is_fragment_of(frags@[i], data@, i),
        forall|i: int| 0 <= i < frags@.len() ==> (#[trigger] frags@[i]).wf(),
{
    let len = data.len();
    let total: u64 = if len % FRAGMENT_DSIZE == 0 {
        (len / FRAGMENT_DSIZE) as u64
    } else {
        (len / FRAGMENT_DSIZE + 1) as u64
    };
    assert(total == fragment_count(len as nat)) by (nonlinear_arith)
        requires
            len % 128 == 0 ==> total == len / 128,
            len % 128 != 0 ==> total == len / 128 + 1,
            FRAGMENT_DSIZE == 128,
    ;
    let mut frags: Vec<Fragment> = Vec::new();
    let mut start: usize = 0;
    let mut index: u64 = 0;
    while index < total
        invariant
            len == data@.len(),
            total == fragment_count(len as nat),
            index <= total,
            index < total ==> start == index * FRAGMENT_DSIZE && start < len,
            frags@.len() == index,
            forall|i: int| 0 <= i < frags@.len() ==> #[trigger] is_fragment_of(frags@[i], data@, i),
            forall|i: int| 0 <= i < frags@.len() ==> (#[trigger] frags@[i]).wf(),
        decreases total - index,
    {
        let end = if len - start >= FRAGMENT_DSIZE { start + FRAGMENT_DSIZE } else { len };
        let mut buff: Vec<u8> = Vec::new();
        let mut k: usize = start;
        while k < end
            invariant
                start <= k <= end <= len,
                len == data@.len(),
                buff@ == data@.subrange(start as int, k as int),
            decreases end - k,
        {
            buff.push(data[k]);
            k = k + 1;
        }
        let chunk_len = end - start;
        while buff.len() < FRAGMENT_DSIZE
            invariant
                chunk_len <= FRAGMENT_DSIZE,
                buff@.len() <= FRAGMENT_DSIZE,
                buff@.len() >= chunk_len,
                buff@ == data@.subrange(start as int, end as int) + zeros((buff@.len() - chunk_len) as nat),
                chunk_len == end - start,
            decreases FRAGMENT_DSIZE - buff@.len(),
        {
            buff.push(0u8);
            assert(buff@ =~= data@.subrange(start as int, end as int) + zeros((buff@.len() - chunk_len) as nat));
        }
        let f = Fragment {
            fragment_index: index,
            total_n_fragments: total,
            length: chunk_len as u8,
            data: buff,
        };
        proof {
            assert(chunk(data@, index as int) =~= data@.subrange(start as int, end as int));
            assert(is_fragment_of(f, data@, index as int));
        }
        frags.push(f);
        proof {
            assert(index + 1 < total ==> end < len && end == start + 128) by (nonlinear_arith)
                requires
                    start == index * 128,
                    start < len,
                    end == (if len - start >= 128 { start + 128 } else { len as int }),
                    total == (len + 127) / 128,
            ;
            assert(end == start + 128 ==> end == (index + 1) * 128) by (nonlinear_arith)
                requires start == index * 128;
        }
        start = end;
        index = index + 1;
    }
    frags
}


/// The fragments held by `slots`, each taken out of its option.
pub open spec fn filled(slots: Seq<Option<Fragment>>) -> Seq<Fragment> {
    slots.map_values(|o: Option<Fragment>| o.unwrap())
}

/// Every fragment lists its data blocks: joined, the fragments of `data`
/// give back `data` followed by zeros up to a whole number of blocks.
pub proof fn lemma_fragments_rejoin(data: Seq<u8>, frags: Seq<Fragment>)
    requires
        frags.len() == fragment_count(data.len()),
        forall|i: int| 0 <= i < frags.len() ==> #[trigger] is_fragment_of(frags[i], data, i),
    ensures
        joined_data(frags, frags.len() as int) == data + zeros((frags.len() * FRAGMENT_DSIZE - data.len()) as nat),
{
    let total = frags.len() as int;
    assert forall|n: int| 0 <= n < total implies #[trigger] joined_data(frags, n) == data.subrange(0, n * FRAGMENT_DSIZE) && n * FRAGMENT_DSIZE < data.len() by {
        lemma_rejoin_prefix(data, frags, n);
    }
    if total == 0 {
        assert(data.len() == 0) by (nonlinear_arith)
            requires total == (data.len() + 127) / 128, total == 0;
        assert(joined_data(frags, 0) =~= data + zeros(0));
    } else {
        let n = total - 1;
        lemma_rejoin_prefix(data, frags, n);
        assert(is_fragment_of(frags[n], data, n));
        assert(data.len() <= total * 128 && n * 128 < data.len()) by (nonlinear_arith)
            requires total == (data.len() + 127) / 128, n == total - 1, total > 0;
        assert(total * 128 == n * 128 + 128) by (nonlinear_arith)
            requires n == total - 1;
        let c = chunk(data, n);
        assert(c =~= data.subrange(n * 128, data.len() as int));
        assert(joined_data(frags, total) =~= data + zeros((total * FRAGMENT_DSIZE - data.len()) as nat));
    }
}

proof fn lemma_rejoin_prefix(data: Seq<u8>, frags: Seq<Fragment>, n: int)
    requires
        frags.len() == fragment_count(data.len()),
        forall|i: int| 0 <= i < frags.len() ==> #[trigger] is_fragment_of(frags[i], data, i),
        0 <= n < frags.len(),
    ensures
        joined_data(frags, n) == data.subrange(0, n * FRAGMENT_DSIZE),
        n * FRAGMENT_DSIZE < data.len(),
    decreases n,
{
    let total = frags.len() as int;
    assert(n * 128 < data.len()) by (nonlinear_arith)
        requires total == (data.len() + 127) / 128, 0 <= n < total;
    if n == 0 {
        assert(joined_data(frags, 0) =~= data.subrange(0, 0));
    } else {
        lemma_rejoin_prefix(data, frags, n - 1);
        assert(is_fragment_of(frags[n - 1], data, n - 1));
        assert((n - 1) * 128 + 128 == n * 128) by (nonlinear_arith);
        assert(chunk(data, n - 1) =~= data.subrange((n - 1) * 128, n * 128));
        assert(padded(chunk(data, n - 1)) =~= chunk(data, n - 1));
        assert(joined_data(frags, n) =~= data.subrange(0, n * FRAGMENT_DSIZE));
    }
}

/// Collects the fragments of one message, in whatever order they arrive.
pub struct MessageConstructor {
    pub fragments_len: u64,
    pub fragments: Vec<Option<Fragment>>,
    pub completed_up_to: u64,
}

/// Whether every slot of `slots` holds a fragment.
pub open spec fn all_filled(slots: Seq<Option<Fragment>>) -> bool {
    forall|i: int| 0 <= i < slots.len() ==> (#[trigger] slots[i]) is Some
}

impl MessageConstructor {
    /// One slot per expected fragment, every stored fragment of full size,
    /// and the slots before `completed_up_to` all filled.
    pub open spec fn wf(&self) -> bool {
        &&& self.fragments@.len() == self.fragments_len
        &&& self.completed_up_to <= self.fragments_len
        &&& forall|i: int| 0 <= i < self.fragments@.len() && (#[trigger] self.fragments@[i]) is Some ==> self.fragments@[i].unwrap().wf()
        &&& forall|i: int| 0 <= i < self.completed_up_to ==> (#[trigger] self.fragments@[i]) is Some
    }

    /// A constructor waiting for `fragments_len` fragments, none received.
    pub fn new(fragments_len: u64) -> (c: Self)
        requires
            fragments_len <= usize::MAX,
        ensures
            c.wf(),
            c.fragments_len == fragments_len,
            c.completed_up_to == 0,
            forall|i: int| 0 <= i < fragments_len ==> c.fragments@[i] is None,
    {
        let mut fragments: Vec<Option<Fragment>> = Vec::new();
        let mut i: u64 = 0;
        while i < fragments_len
            invariant
                i <= fragments_len,
                fragments@.len() == i,
                forall|j: int| 0 <= j < i ==> fragments@[j] is None,
            decreases fragments_len - i,
        {
            fragments.push(None);
            i = i + 1;
        }
        MessageConstructor { fragments_len, fragments, completed_up_to: 0 }
    }

    /// Stores `fragment` in its slot, replacing what the slot held. A
    /// fragment whose index is not below the expected count is refused with
    /// `Err(())`. The count of completed slots then advances over the filled
    /// slots that follow it. Once every slot is filled, the whole message is
    /// returned: the data blocks of all slots, in index order (whatever the
    /// order of arrival); before that, nothing.
    pub fn add_packet(&mut self, fragment: Fragment) -> (r: Result<Option<Vec<u8>>, ()>)
        requires
            old(self).wf(),
            fragment.wf(),
        ensures
            final(self).wf(),
            final(self).fragments_len == old(self).fragments_len,
            final(self).completed_up_to >= old(self).completed_up_to,
            fragment.fragment_index >= old(self).fragments_len ==> {
                &&& r is Err
                &&& final(self).fragments@ == old(self).fragments@
                &&& final(self).completed_up_to == old(self).completed_up_to
            },
            fragment.fragment_index < old(self).fragments_len ==> {
                &&& final(self).fragments@ == old(self).fragments@.update(fragment.fragment_index as int, Some(fragment))
                &&& (final(self).completed_up_to == final(self).fragments_len
                    || final(self).fragments@[final(self).completed_up_to as int] is None)
                &&& (all_filled(final(self).fragments@) ==> (r matches Ok(Some(m))
                    && m@ == joined_data(filled(final(self).fragments@), old(self).fragments_len as int)))
                &&& (!all_filled(final(self).fragments@) ==> r == Ok::<Option<Vec<u8>>, ()>(None))
            },
    {
        let frag_index = fragment.fragment_index;
        if frag_index >= self.fragments_len {
            return Err(());
        }
        self.fragments.set(frag_index as usize, Some(fragment));
        let slot_count = self.fragments.len();
        assert(self.fragments_len == slot_count);
        let ghost after_set = self.fragments@;
        while (self.completed_up_to as usize) < self.fragments.len() && self.fragments[self.completed_up_to as usize].is_some()
            invariant
                self.fragments@.len() == self.fragments_len,
                self.completed_up_to <= self.fragments_len,
                self.fragments_len <= usize::MAX,
                self.fragments@ == after_set,
                forall|i: int| 0 <= i < self.completed_up_to ==> (#[trigger] self.fragments@[i]) is Some,
                forall|i: int| 0 <= i < self.fragments@.len() && (#[trigger] self.fragments@[i]) is Some ==> self.fragments@[i].unwrap().wf(),
            decreases self.fragments_len - self.completed_up_to,
        {
            self.completed_up_to = self.completed_up_to + 1;
        }
        if self.completed_up_to == self.fragments_len {
            let ghost slots = self.fragments@;
            let mut message: Vec<u8> = Vec::new();
            let mut j: usize = 0;
            while j < self.fragments.len()
                invariant
                    slots == self.fragments@,
                    j <= slots.len(),
                    forall|i: int| 0 <= i < slots.len() ==> (#[trigger] slots[i]) is Some,
                    message@ == joined_data(filled(slots), j as int),
                decreases slots.len() - j,
            {
                match &self.fragments[j] {
                    Some(f) => {
                        let mut b: usize = 0;
                        let ghost before = message@;
                        while b < f.data.len()
                            invariant
                                b <= f.data@.len(),
                                message@ == before + f.data@.subrange(0, b as int),
                            decreases f.data@.len() - b,
                        {
                            message.push(f.data[b]);
                            b = b + 1;
                            assert(message@ =~= before + f.data@.subrange(0, b as int));
                        }
                        assert(f.data@.subrange(0, f.data@.len() as int) =~= f.data@);
                        assert(filled(slots)[j as int] == *f);
                    },
                    None => {
                        proof {
                            assert(slots[j as int] is Some);
                        }
                        vstd::pervasive::unreached::<()>();
                    },
                }
                j = j + 1;
            }
            Ok(Some(message))
        } else {
            assert(!all_filled(self.fragments@)) by {
                assert(self.fragments@[self.completed_up_to as int] is None);
            }
            Ok(None)
        }
    }
}

/// What a constructor hands back is what was fragmented: once its slots
/// hold the fragments of `data`, the joined slots are `data` followed by
/// zeros up to a whole number of blocks.
pub proof fn lemma_constructor_gives_back_data(data: Seq<u8>, slots: Seq<Option<Fragment>>)
    requires
        slots.len() == fragment_count(data.len()),
        forall|i: int| 0 <= i < slots.len() ==> (#[trigger] slots[i]) is Some && is_fragment_of(slots[i].unwrap(), data, i),
    ensures
        joined_data(filled(slots), slots.len() as int) == data + zeros((slots.len() * FRAGMENT_DSIZE - data.len()) as nat),
{
    let frags = filled(slots);
    assert forall|i: int| 0 <= i < frags.len() implies #[trigger] is_fragment_of(frags[i], data, i) by {
        assert(slots[i] is Some);
    }
    lemma_fragments_rejoin(data, frags);
}

/// The slots of a message of `frags.len()` fragments once `frags[order[0]]`,
/// ..., `frags[order[k - 1]]` have been added, one after another, to an
/// empty constructor: each addition fills the slot of the fragment's index.
pub open spec fn slots_after(frags: Seq<Fragment>, order: Seq<int>, k: int) -> Seq<Option<Fragment>>
    decreases k,
{
    if k <= 0 {
        Seq::new(frags.len(), |i: int| None::<Fragment>)
    } else {
        slots_after(frags, order, k - 1).update(order[k - 1], Some(frags[order[k - 1]]))
    }
}

/// `order` lists each index below `n` once.
pub open spec fn is_order_of(order: Seq<int>, n: int) -> bool {
    &&& order.len() == n
    &&& order.no_duplicates()
    &&& forall|k: int| 0 <= k < n ==> 0 <= #[trigger] order[k] < n
}

proof fn lemma_slots_after(frags: Seq<Fragment>, order: Seq<int>, k: int)
    requires
        is_order_of(order, frags.len() as int),
        0 <= k <= order.len(),
    ensures
        slots_after(frags, order, k).len() == frags.len(),
        forall|i: int| 0 <= i < frags.len() ==> ((#[trigger] slots_after(frags, order, k)[i]) is Some <==> order.take(k).contains(i)),
        forall|i: int| 0 <= i < frags.len() && (#[trigger] slots_after(frags, order, k)[i]) is Some ==> slots_after(frags, order, k)[i] == Some(frags[i]),
    decreases k,
{
    if k > 0 {
        lemma_slots_after(frags, order, k - 1);
        let prev = order.take(k - 1);
        assert(order.take(k) =~= prev.push(order[k - 1]));
        assert forall|i: int| 0 <= i < frags.len() implies ((#[trigger] slots_after(frags, order, k)[i]) is Some <==> order.take(k).contains(i)) by {
            if i == order[k - 1] {
                assert(order.take(k)[k - 1] == i);
            } else if order.take(k).contains(i) {
                let j = choose|j: int| 0 <= j < k && order.take(k)[j] == i;
                assert(prev[j] == i);
            }
        }
    }
}

/// A message is reassembled whatever the order in which its fragments
/// arrive: while fragments are missing some slot is empty (so adding a
/// fragment returns nothing), and once each fragment of `data` has been
/// added, the joined slots are `data` followed by zeros up to a whole number
/// of blocks.
pub proof fn lemma_reassembly_any_order(data: Seq<u8>, frags: Seq<Fragment>, order: Seq<int>)
    requires
        frags.len() == fragment_count(data.len()),
        forall|i: int| 0 <= i < frags.len() ==> #[trigger] is_fragment_of(frags[i], data, i),
        is_order_of(order, frags.len() as int),
    ensures
        forall|k: int| 0 <= k < frags.len() ==> !all_filled(#[trigger] slots_after(frags, order, k)),
        all_filled(slots_after(frags, order, frags.len() as int)),
        joined_data(filled(slots_after(frags, order, frags.len() as int)), frags.len() as int)
            == data + zeros((frags.len() * FRAGMENT_DSIZE - data.len()) as nat),
{
    let n = frags.len() as int;
    assert forall|k: int| 0 <= k < n implies !all_filled(#[trigger] slots_after(frags, order, k)) by {
        lemma_slots_after(frags, order, k);
        let t = order.take(k);
        assert(t.no_duplicates()) by {
            assert forall|a: int, b: int| 0 <= a < t.len() && 0 <= b < t.len() && a != b implies t[a] != t[b] by {
                assert(t[a] == order[a] && t[b] == order[b]);
            }
        }
        t.unique_seq_to_set();
        let r = vstd::set_lib::set_int_range(0, n);
        vstd::set_lib::lemma_int_range(0, n);
        if r.subset_of(t.to_set()) {
            vstd::seq_lib::seq_to_set_is_finite(t);
            vstd::set_lib::lemma_len_subset(r, t.to_set());
            assert(false);
        }
        let i = choose|i: int| r.contains(i) && !t.to_set().contains(i);
        assert(!t.contains(i));
        assert(slots_after(frags, order, k)[i] is None);
    }
    lemma_slots_after(frags, order, n);
    assert(order.take(n) =~= order);
    let slots = slots_after(frags, order, n);
    assert forall|i: int| 0 <= i < n implies (#[trigger] slots[i]) is Some by {
        let t = order.take(n);
        let ti = order.to_set();
        // every index below n is listed once in an order of n distinct indexes below n
        order.unique_seq_to_set();
        let r = vstd::set_lib::set_int_range(0, n);
        vstd::set_lib::lemma_int_range(0, n);
        assert(ti.subset_of(r)) by {
            assert forall|x: int| ti.contains(x) implies r.contains(x) by {
                let j = choose|j: int| 0 <= j < n && order[j] == x;
                assert(0 <= order[j] < n);
            }
        }
        if !ti.contains(i) {
            vstd::set_lib::lemma_len_subset(ti, r.remove(i));
            assert(r.remove(i).len() == n - 1);
        }
        assert(order.contains(i));
    }
    assert forall|i: int| 0 <= i < n implies (#[trigger] slots[i]) is Some && is_fragment_of(slots[i].unwrap(), data, i) by {
        assert(slots[i] == Some(frags[i]));
    }
    lemma_constructor_gives_back_data(data, slots);
}

} // verus!
