//! What the feed client decides on its own: which streamed messages carry
//! order-book updates.
use vstd::prelude::*;
use vstd::string::StringSliceAdditionalSpecFns;

verus! {

/// The bytes of `orderbookupdate`, the topic family of order-book updates.
pub open spec fn topic_prefix() -> Seq<u8> {
    seq![111u8, 114, 100, 101, 114, 98, 111, 111, 107, 117, 112, 100, 97, 116, 101]
}

/// Whether a topic, as bytes, starts with `orderbookupdate`.
pub open spec fn is_update_topic(t: Seq<u8>) -> bool {
    t.len() >= topic_prefix().len() && t.take(topic_prefix().len() as int) == topic_prefix()
}

/// Whether a streamed message with this topic carries an order-book update.
pub fn is_orderbook_topic(topic: &str) -> (r: bool)
    ensures
        r == is_update_topic(topic.spec_bytes()),
{
    let b = topic.as_bytes();
    let prefix: Vec<u8> = vec![111u8, 114, 100, 101, 114, 98, 111, 111, 107, 117, 112, 100, 97, 116, 101];
    assert(prefix@ =~= topic_prefix());
    if b.len() < prefix.len() {
        return false;
    }
    let mut i: usize = 0;
    while i < prefix.len()
        invariant
            i <= prefix@.len() <= b@.len(),
            prefix@ == topic_prefix(),
            b@ == topic.spec_bytes(),
            forall|j: int| 0 <= j < i ==> b@[j] == prefix@[j],
        decreases prefix@.len() - i,
    {
        if b[i] != prefix[i] {
            proof {
                let t = b@.take(prefix@.len() as int);
                assert(t[i as int] == b@[i as int]);
                assert(t[i as int] != topic_prefix()[i as int]);
                assert(t != topic_prefix());
            }
            return false;
        }
        i = i + 1;
    }
    assert(b@.take(prefix@.len() as int) =~= topic_prefix());
    true
}

} // verus!
