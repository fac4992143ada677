//! Cutting a stored list of identifiers into pages.

use vstd::prelude::*;
use crate::bytes::{byte_views, copy_bytes};
use crate::{clamp_page_size, spec_clamp_page_size};

verus! {

/// Index of the first item of page `page`.
pub open spec fn page_start(page: u32, page_size: u32) -> int {
    page * spec_clamp_page_size(page_size)
}

/// The arithmetic of page `page` stays within `u32`.
pub open spec fn page_in_range(page: u32, page_size: u32) -> bool {
    page_start(page, page_size) + spec_clamp_page_size(page_size) <= u32::MAX
}

/// The items that page `page` of `items` holds.
pub open spec fn page_items<T>(items: Seq<T>, page: u32, page_size: u32) -> Seq<T> {
    let start = page_start(page, page_size);
    let end = start + spec_clamp_page_size(page_size);
    if start < items.len() {
        items.subrange(start, if end < items.len() { end } else { items.len() as int })
    } else {
        Seq::empty()
    }
}

/// Whether items remain after page `page` of a list of `total` items.
pub open spec fn page_has_more(total: int, page: u32, page_size: u32) -> bool {
    page_start(page, page_size) + spec_clamp_page_size(page_size) < total
}

/// Page `page` of a list of byte strings: the items, the total count and
/// whether more pages follow.
pub fn paginate_bytes(items: &Vec<Vec<u8>>, page: u32, page_size: u32) -> (r: (Vec<Vec<u8>>, u32, bool))
    requires
        items@.len() <= u32::MAX,
        page_in_range(page, page_size),
    ensures
        byte_views(r.0@) == page_items(byte_views(items@), page, page_size),
        r.1 == items@.len(),
        r.2 == page_has_more(items@.len() as int, page, page_size),
{
    let size = clamp_page_size(page_size);
    let total = items.len() as u32;
    assert(page as int * size as int + size as int <= u32::MAX);
    let start = page * size;
    let mut data: Vec<Vec<u8>> = Vec::new();
    let ghost all = byte_views(items@);
    if start < total {
        let end = if start + size < total { start + size } else { total };
        let mut i = start;
        while i < end
            invariant
                all == byte_views(items@),
                start <= i <= end,
                end <= total == items@.len(),
                byte_views(data@) == all.subrange(start as int, i as int),
            decreases end - i,
        {
            let b = copy_bytes(&items[i as usize]);
            let ghost before = data@;
            data.push(b);
            assert(byte_views(data@) =~= byte_views(before).push(all[i as int]));
            i = i + 1;
            assert(byte_views(data@) =~= all.subrange(start as int, i as int));
        }
    } else {
        assert(byte_views(data@) =~= Seq::<Seq<u8>>::empty());
    }
    (data, total, start + size < total)
}

/// Paging loses nothing and repeats nothing: item `i` of a list is item
/// `i % size` of page `i / size`, where `size` is the clamped page size.
pub proof fn law_item_on_its_page<T>(items: Seq<T>, i: int, page_size: u32)
    requires
        0 <= i < items.len(),
        i / (spec_clamp_page_size(page_size) as int) <= u32::MAX,
    ensures
        ({
            let size = spec_clamp_page_size(page_size) as int;
            let page = (i / size) as u32;
            &&& i % size < page_items(items, page, page_size).len()
            &&& page_items(items, page, page_size)[i % size] == items[i]
        }),
{
    let size = spec_clamp_page_size(page_size) as int;
    let page = (i / size) as u32;
    assert(size > 0);
    assert(i == (i / size) * size + i % size && 0 <= i % size < size) by (nonlinear_arith)
        requires
            size > 0,
            i >= 0,
    ;
    assert(page_start(page, page_size) == (i / size) * size);
}

} // verus!
