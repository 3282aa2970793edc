//! Rendering of a list of items as one comma-separated line, cut off with
//! an ellipsis past a maximum count.

use vstd::prelude::*;
use vstd::string::StringExecFns;

verus! {

/// How many items are shown when the caller does not say.
pub const DEFAULT_MAX_ITEMS: usize = 5;

/// The items joined with a comma and a space.
pub open spec fn spec_join(items: Seq<Seq<char>>) -> Seq<char>
    decreases items.len(),
{
    if items.len() == 0 {
        Seq::empty()
    } else if items.len() == 1 {
        items[0]
    } else {
        spec_join(items.drop_last()) + ", "@ + items.last()
    }
}

/// The rendered list: `None` for nothing to show, the joined items while
/// they fit, and the first `max_items` with a trailing ellipsis otherwise.
pub open spec fn spec_render_list(items: Seq<Seq<char>>, max_items: int) -> Seq<char> {
    if items.len() == 0 || max_items == 0 {
        "None"@
    } else if items.len() <= max_items {
        spec_join(items)
    } else {
        spec_join(items.take(max_items)) + ", ..."@
    }
}

/// Renders the list for the user, showing at most `max_items` entries
/// (five when `None` is given).
pub fn render_list_for_user(str_list: &Vec<String>, max_items: Option<usize>) -> (r: String)
    ensures
        r@ == spec_render_list(
            str_list@.map_values(|s: String| s@),
            match max_items {
                Some(m) => m as int,
                None => DEFAULT_MAX_ITEMS as int,
            },
        ),
{
    let ghost items = str_list@.map_values(|s: String| s@);
    let max: usize = match max_items {
        Some(m) => m,
        None => DEFAULT_MAX_ITEMS,
    };
    if str_list.len() == 0 || max == 0 {
        return String::from_str("None");
    }
    let count: usize = if str_list.len() <= max {
        str_list.len()
    } else {
        max
    };
    let mut s = String::new();
    let mut i: usize = 0;
    while i < count
        invariant
            items == str_list@.map_values(|st: String| st@),
            items.len() == str_list@.len(),
            0 < count <= str_list@.len(),
            0 <= i <= count,
            s@ == spec_join(items.take(i as int)),
        decreases count - i,
    {
        if i > 0 {
            s.append(", ");
        }
        s.append(str_list[i].as_str());
        proof {
            assert(items.take(i + 1).drop_last() =~= items.take(i as int));
            assert(items.take(i + 1).last() == items[i as int]);
            if i == 0 {
                assert(s@ =~= items[0]);
                assert(items.take(1)[0] == items[0]);
            }
        }
        i += 1;
    }
    if str_list.len() > max {
        s.append(", ...");
    } else {
        proof {
            assert(items.take(count as int) =~= items);
        }
    }
    s
}

} // verus!
