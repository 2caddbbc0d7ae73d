use vstd::prelude::*;

use crate::posix_fns::push_char;

verus! {

/// The size of the buffer that one read fills: the longest message read at once.
pub const MAXLINE: usize = 4096;

/// The text of the bytes `b`: every byte but the zero bytes, in order, each as the
/// character of the same code.
pub open spec fn text_of_bytes(b: Seq<u8>) -> Seq<char>
    decreases b.len(),
{
    if b.len() == 0 {
        Seq::empty()
    } else if b.last() == 0 {
        text_of_bytes(b.drop_last())
    } else {
        text_of_bytes(b.drop_last()).push(b.last() as char)
    }
}

/// The message that a read gives, from the buffer it filled and the count it
/// returned: none when the count is 0 (the peer closed the connection),
/// otherwise the text of the buffer's bytes.
pub fn read_message(buf: &[u8], n: isize) -> (r: Option<String>)
    ensures
        r is None <==> n == 0,
        r matches Some(s) ==> s@ == text_of_bytes(buf@),
{
    if n == 0 {
        return None;
    }
    let mut msg = String::new();
    let mut i: usize = 0;
    while i < buf.len()
        invariant
            i <= buf.len(),
            msg@ == text_of_bytes(buf@.take(i as int)),
        decreases buf.len() - i,
    {
        let c = buf[i];
        proof {
            assert(buf@.take(i + 1).drop_last() =~= buf@.take(i as int));
        }
        if c != 0 {
            push_char(&mut msg, c as char);
        }
        i = i + 1;
    }
    assert(buf@.take(buf.len() as int) =~= buf@);
    Some(msg)
}

/// The text of a buffer is made piece by piece: the text of two buffers one after
/// the other is the text of the first, then that of the second.
pub proof fn lemma_text_of_concat(a: Seq<u8>, b: Seq<u8>)
    ensures
        text_of_bytes(a + b) == text_of_bytes(a) + text_of_bytes(b),
    decreases b.len(),
{
    if b.len() == 0 {
        assert(a + b =~= a);
        assert(text_of_bytes(a) + text_of_bytes(b) =~= text_of_bytes(a));
    } else {
        lemma_text_of_concat(a, b.drop_last());
        assert((a + b).drop_last() =~= a + b.drop_last());
        assert((a + b).last() == b.last());
        if b.last() == 0 {
        } else {
            assert(text_of_bytes(a) + text_of_bytes(b.drop_last()).push(b.last() as char)
                =~= (text_of_bytes(a) + text_of_bytes(b.drop_last())).push(b.last() as char));
        }
    }
}

/// Of one byte, the text is nothing when the byte is 0, and otherwise the one
/// character of that code.
pub proof fn lemma_text_of_byte(x: u8)
    ensures
        text_of_bytes(seq![x]) == if x == 0 {
            Seq::<char>::empty()
        } else {
            seq![x as char]
        },
{
    assert(seq![x].drop_last() =~= Seq::<u8>::empty());
    assert(seq![x].last() == x);
    assert(text_of_bytes(Seq::<u8>::empty()) == Seq::<char>::empty());
    assert(Seq::<char>::empty().push(x as char) =~= seq![x as char]);
}

/// A buffer without zero bytes is read whole: every byte, in order, becomes the
/// character of its code.
pub proof fn lemma_text_of_nonzero(b: Seq<u8>)
    requires
        forall|i: int| 0 <= i < b.len() ==> b[i] != 0,
    ensures
        text_of_bytes(b).len() == b.len(),
        forall|i: int| 0 <= i < b.len() ==> #[trigger] text_of_bytes(b)[i] == b[i] as char,
    decreases b.len(),
{
    if b.len() > 0 {
        lemma_text_of_nonzero(b.drop_last());
        assert(b.last() != 0);
        assert forall|i: int| 0 <= i < b.len() implies #[trigger] text_of_bytes(b)[i] == b[i] as char by {
            if i < b.len() - 1 {
                assert(text_of_bytes(b.drop_last())[i] == b.drop_last()[i]);
            }
        }
    }
}

} // verus!
