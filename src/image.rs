use vstd::prelude::*;

verus! {

/// The line-feed byte that ends each line of an image header.
pub const LINE_FEED: u8 = 0x0A;

/// The number of line feeds in `s`.
pub open spec fn line_feeds(s: Seq<u8>) -> nat
    decreases s.len(),
{
    if s.len() == 0 {
        0
    } else {
        line_feeds(s.drop_last()) + if s.last() == LINE_FEED {
            1nat
        } else {
            0nat
        }
    }
}

/// Whether byte `k` of `s` is its third line feed, the one that ends a three-line
/// header (magic number; width and height; largest grey value).
pub open spec fn ends_header(s: Seq<u8>, k: int) -> bool {
    0 <= k < s.len() && s[k] == LINE_FEED && line_feeds(s.take(k)) == 2
}

proof fn lemma_line_feeds_prefix(s: Seq<u8>, k: int)
    requires
        0 <= k <= s.len(),
    ensures
        line_feeds(s.take(k)) <= line_feeds(s),
    decreases s.len() - k,
{
    if k < s.len() {
        lemma_line_feeds_prefix(s, k + 1);
        assert(s.take(k + 1).drop_last() =~= s.take(k));
    } else {
        assert(s.take(k) =~= s);
    }
}

/// The pixel data of a greyscale image file with a three-line header: every byte after
/// the third line feed. `None` when the file holds fewer than three line feeds.
pub fn image_data(file: &[u8]) -> (r: Option<Vec<u8>>)
    ensures
        r.is_none() <==> line_feeds(file@) < 3,
        r.is_some() ==> exists|k: int|
            ends_header(file@, k) && r.unwrap()@ == file@.subrange(k + 1, file@.len() as int),
{
    let mut count: usize = 0;
    let mut i: usize = 0;
    while i < file.len()
        invariant
            i <= file@.len(),
            count == line_feeds(file@.take(i as int)),
            count < 3,
        decreases file@.len() - i,
    {
        proof {
            assert(file@.take(i + 1).drop_last() =~= file@.take(i as int));
        }
        if file[i] == LINE_FEED {
            if count == 2 {
                proof {
                    lemma_line_feeds_prefix(file@, i + 1);
                }
                let mut data: Vec<u8> = Vec::new();
                let mut j: usize = i + 1;
                while j < file.len()
                    invariant
                        i < j <= file@.len(),
                        data@ == file@.subrange(i + 1, j as int),
                    decreases file@.len() - j,
                {
                    data.push(file[j]);
                    j = j + 1;
                }
                assert(ends_header(file@, i as int));
                assert(data@ == file@.subrange(i + 1, file@.len() as int));
                return Some(data);
            }
            count = count + 1;
        }
        i = i + 1;
    }
    proof {
        assert(file@.take(i as int) =~= file@);
    }
    None
}

} // verus!
