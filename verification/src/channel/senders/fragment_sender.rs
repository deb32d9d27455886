//! Splits a payload that is too large for one packet.

use crate::packet::message::{
    fragment_views, ChannelError, FragmentData, FragmentDataView, MessageId,
};
use crate::utils::payload::{payload, payload_len, payload_slice};
use bytes::Bytes;
use vstd::prelude::*;

verus! {

/// Fragment size of a sender made with [`FragmentSender::new`].
pub const FRAGMENT_SIZE: usize = 1024;

/// The most fragments one message can have.
pub const MAX_FRAGMENTS: usize = 255;

/// How many fragments of `fragment_size` bytes cover `len` bytes: `len`
/// divided by `fragment_size`, rounded up.
pub open spec fn fragment_count(len: nat, fragment_size: nat) -> nat
    recommends
        fragment_size > 0,
{
    if len == 0 {
        0
    } else {
        ((len - 1) / (fragment_size as int) + 1) as nat
    }
}

/// Where fragment `i` ends in a payload of `len` bytes.
pub open spec fn fragment_end(len: nat, fragment_size: nat, i: nat) -> nat {
    if (i + 1) * fragment_size <= len {
        (i + 1) * fragment_size
    } else {
        len
    }
}

/// The bytes of fragment `i`: the `i`-th run of `fragment_size` bytes, the
/// last one as long as what is left.
pub open spec fn fragment_bytes(content: Seq<u8>, fragment_size: nat, i: nat) -> Seq<u8> {
    content.subrange((i * fragment_size) as int, fragment_end(content.len(), fragment_size, i) as int)
}

/// Fragment `i` of the message `message_id` with the given content.
pub open spec fn fragment_of(
    message_id: MessageId,
    content: Seq<u8>,
    fragment_size: nat,
    i: nat,
) -> FragmentDataView {
    FragmentDataView {
        message_id,
        fragment_id: i as u8,
        num_fragments: fragment_count(content.len(), fragment_size) as u8,
        bytes: fragment_bytes(content, fragment_size, i),
    }
}

/// Whether `fragments` is the split of `content` into fragments of
/// `fragment_size` bytes, in order.
pub open spec fn is_split_of(
    fragments: Seq<FragmentDataView>,
    message_id: MessageId,
    content: Seq<u8>,
    fragment_size: nat,
) -> bool {
    &&& fragments.len() == fragment_count(content.len(), fragment_size)
    &&& forall|i: int|
        0 <= i < fragments.len() ==> #[trigger] fragments[i] == fragment_of(
            message_id,
            content,
            fragment_size,
            i as nat,
        )
}

/// The bytes of a run of fragments, one after the other.
pub open spec fn joined_bytes(fragments: Seq<FragmentDataView>) -> Seq<u8>
    decreases fragments.len(),
{
    if fragments.len() == 0 {
        Seq::<u8>::empty()
    } else {
        joined_bytes(fragments.drop_last()) + fragments.last().bytes
    }
}

/// Where the fragments lie in the payload: each starts inside it, and only
/// the last reaches its end.
pub proof fn lemma_fragment_bounds(len: nat, fragment_size: nat, i: nat)
    requires
        fragment_size > 0,
        i < fragment_count(len, fragment_size),
    ensures
        i * fragment_size < len,
        i + 1 < fragment_count(len, fragment_size) ==> (i + 1) * fragment_size < len,
        i + 1 == fragment_count(len, fragment_size) ==> (i + 1) * fragment_size >= len,
        (i + 1) * fragment_size == i * fragment_size + fragment_size,
{
    let q = (len - 1) / (fragment_size as int);
    let r = (len - 1) % (fragment_size as int);
    vstd::arithmetic::div_mod::lemma_fundamental_div_mod(len - 1, fragment_size as int);
    vstd::arithmetic::div_mod::lemma_mod_bound(len - 1, fragment_size as int);
    assert(len - 1 == fragment_size * q + r);
    assert(i <= q);
    assert(i * fragment_size <= q * fragment_size) by (nonlinear_arith)
        requires
            i <= q,
            fragment_size > 0,
    ;
    assert(q * fragment_size == fragment_size * q) by (nonlinear_arith);
    assert((i + 1) * fragment_size == i * fragment_size + fragment_size) by (nonlinear_arith);
    if i + 1 <= q {
        assert((i + 1) * fragment_size <= q * fragment_size) by (nonlinear_arith)
            requires
                i + 1 <= q,
                fragment_size > 0,
        ;
    } else {
        assert((i + 1) * fragment_size == (q + 1) * fragment_size);
        assert((q + 1) * fragment_size == fragment_size * q + fragment_size) by (nonlinear_arith);
    }
}

/// A payload needs at most 255 fragments exactly when it is no longer than
/// 255 fragment sizes.
pub proof fn lemma_fragment_count_limit(len: nat, fragment_size: nat)
    requires
        fragment_size > 0,
    ensures
        fragment_count(len, fragment_size) <= 255 <==> len <= 255 * fragment_size,
{
    if len > 0 {
        let q = (len - 1) / (fragment_size as int);
        let r = (len - 1) % (fragment_size as int);
        vstd::arithmetic::div_mod::lemma_fundamental_div_mod(len - 1, fragment_size as int);
        vstd::arithmetic::div_mod::lemma_mod_bound(len - 1, fragment_size as int);
        assert(len - 1 == fragment_size * q + r);
        if q <= 254 {
            assert(fragment_size * q <= fragment_size * 254) by (nonlinear_arith)
                requires
                    q <= 254,
                    fragment_size > 0,
            ;
        } else {
            assert(fragment_size * q >= fragment_size * 255) by (nonlinear_arith)
                requires
                    q >= 255,
                    fragment_size > 0,
            ;
        }
    }
}

/// The fragments of a payload, joined in order, give the payload back.
pub proof fn lemma_split_joins(
    fragments: Seq<FragmentDataView>,
    message_id: MessageId,
    content: Seq<u8>,
    fragment_size: nat,
)
    requires
        fragment_size > 0,
        is_split_of(fragments, message_id, content, fragment_size),
    ensures
        joined_bytes(fragments) == content,
{
    lemma_split_prefix_joins(fragments, message_id, content, fragment_size, fragments.len());
    let n = fragments.len();
    assert(fragments.take(n as int) == fragments);
    if n > 0 {
        lemma_fragment_bounds(content.len(), fragment_size, (n - 1) as nat);
    }
    assert(content.subrange(0, content.len() as int) == content);
}

/// The first `k` fragments of a payload, joined, give the payload up to
/// where fragment `k` starts.
pub proof fn lemma_split_prefix_joins(
    fragments: Seq<FragmentDataView>,
    message_id: MessageId,
    content: Seq<u8>,
    fragment_size: nat,
    k: nat,
)
    requires
        fragment_size > 0,
        is_split_of(fragments, message_id, content, fragment_size),
        k <= fragments.len(),
    ensures
        k == 0 ==> joined_bytes(fragments.take(k as int)) == Seq::<u8>::empty(),
        k > 0 ==> joined_bytes(fragments.take(k as int)) == content.subrange(
            0,
            fragment_end(content.len(), fragment_size, (k - 1) as nat) as int,
        ),
    decreases k,
{
    let prefix = fragments.take(k as int);
    if k == 0 {
        assert(prefix.len() == 0);
    } else {
        let i = (k - 1) as nat;
        lemma_split_prefix_joins(fragments, message_id, content, fragment_size, i);
        lemma_fragment_bounds(content.len(), fragment_size, i);
        assert(prefix.drop_last() == fragments.take(i as int));
        assert(prefix.last() == fragments[i as int]);
        assert(prefix.last().bytes == fragment_bytes(content, fragment_size, i));
        let end = fragment_end(content.len(), fragment_size, i) as int;
        let begin = (i * fragment_size) as int;
        if i == 0 {
            assert(begin == 0) by (nonlinear_arith)
                requires
                    begin == i * fragment_size,
                    i == 0,
            ;
            assert(joined_bytes(prefix) == content.subrange(0, end));
        } else {
            lemma_fragment_bounds(content.len(), fragment_size, (i - 1) as nat);
            assert(fragment_end(content.len(), fragment_size, (i - 1) as nat) == begin);
            assert(content.subrange(0, begin) + content.subrange(begin, end) == content.subrange(
                0,
                end,
            ));
        }
    }
}

/// Cuts payloads into fragments of a fixed size.
#[derive(Clone, Copy, Debug)]
pub struct FragmentSender {
    /// Most bytes that one fragment carries.
    pub fragment_size: usize,
}

impl FragmentSender {
    /// A fragment size of zero could cover no payload.
    pub open spec fn wf(&self) -> bool {
        self.fragment_size > 0
    }

    /// A sender that cuts at [`FRAGMENT_SIZE`] bytes.
    pub fn new() -> (sender: Self)
        ensures
            sender.wf(),
            sender.fragment_size == FRAGMENT_SIZE,
    {
        FragmentSender { fragment_size: FRAGMENT_SIZE }
    }

    /// A sender that cuts at `fragment_size` bytes.
    pub fn with_fragment_size(fragment_size: usize) -> (sender: Self)
        requires
            fragment_size > 0,
        ensures
            sender.wf(),
            sender.fragment_size == fragment_size,
    {
        FragmentSender { fragment_size }
    }

    /// Splits `bytes` into consecutive fragments of `fragment_size` bytes, the
    /// last one possibly shorter, numbered from zero and all carrying
    /// `message_id`. A payload longer than 255 fragment sizes is refused.
    pub fn build_fragments(&self, message_id: MessageId, bytes: Bytes) -> (result: Result<
        Vec<FragmentData>,
        ChannelError,
    >)
        requires
            self.wf(),
        ensures
            result is Ok <==> payload(bytes).len() <= 255 * self.fragment_size,
            result is Err ==> result == Err::<Vec<FragmentData>, ChannelError>(
                ChannelError::MessageTooLarge,
            ),
            result is Ok ==> is_split_of(
                fragment_views(result->Ok_0@),
                message_id,
                payload(bytes),
                self.fragment_size as nat,
            ),
    {
        let len: usize = payload_len(&bytes);
        let size: usize = self.fragment_size;
        let count: usize = if len == 0 {
            0
        } else {
            (len - 1) / size + 1
        };
        proof {
            lemma_fragment_count_limit(len as nat, size as nat);
        }
        if count > MAX_FRAGMENTS {
            return Err(ChannelError::MessageTooLarge);
        }
        let ghost content = payload(bytes);
        let mut fragments: Vec<FragmentData> = Vec::new();
        let mut i: usize = 0;
        while i < count
            invariant
                size > 0,
                size == self.fragment_size,
                len == content.len(),
                content == payload(bytes),
                count == fragment_count(len as nat, size as nat),
                count <= 255,
                i <= count,
                fragments.len() == i,
                forall|k: int|
                    0 <= k < i ==> (#[trigger] fragments@[k])@ == fragment_of(
                        message_id,
                        content,
                        size as nat,
                        k as nat,
                    ),
            decreases count - i,
        {
            proof {
                lemma_fragment_bounds(len as nat, size as nat, i as nat);
            }
            let begin: usize = i * size;
            let end: usize = if len - begin <= size {
                len
            } else {
                begin + size
            };
            let part = payload_slice(&bytes, begin, end);
            fragments.push(
                FragmentData {
                    message_id,
                    fragment_id: i as u8,
                    num_fragments: count as u8,
                    bytes: part,
                },
            );
            i = i + 1;
        }
        proof {
            let views = fragment_views(fragments@);
            assert forall|k: int| 0 <= k < views.len() implies #[trigger] views[k] == fragment_of(
                message_id,
                content,
                size as nat,
                k as nat,
            ) by {
                assert(views[k] == fragments@[k]@);
            }
        }
        Ok(fragments)
    }
}

} // verus!
