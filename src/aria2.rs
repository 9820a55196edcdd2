//! The input list of the bulk downloader.
use vstd::prelude::*;
use vstd::string::*;
use crate::url::{LocalPath, joined};

verus! {

/// One entry of the list: the address, then `\tout=` and the destination.
pub open spec fn list_item(url: Seq<char>, dest: Seq<Seq<char>>) -> Seq<char> {
    url + seq!['\n', '\t', 'o', 'u', 't', '='] + joined(dest) + seq!['\n']
}

/// The entries of all items, in order.
pub open spec fn list_of(items: Seq<(Seq<char>, Seq<Seq<char>>)>) -> Seq<char>
    decreases items.len(),
{
    if items.len() == 0 {
        seq![]
    } else {
        list_of(items.drop_last()) + list_item(items.last().0, items.last().1)
    }
}

pub open spec fn item_views(v: Seq<(String, LocalPath)>) -> Seq<(Seq<char>, Seq<Seq<char>>)> {
    v.map_values(|e: (String, LocalPath)| (e.0@, e.1@))
}

/// The list entry that asks for `url` to be written to `path`.
pub fn gen_list_item(url: &str, path: &LocalPath) -> (r: String)
    ensures
        r@ == list_item(url@, path@),
{
    let mut r = String::from_str(url);
    r.append("\n\tout=");
    proof {
        reveal_strlit("\n\tout=");
    }
    let dest = path.display();
    r.append(dest.as_str());
    r.append("\n");
    proof {
        reveal_strlit("\n");
    }
    r
}

/// The whole list for a batch of address and destination pairs.
pub fn gen_list(items: &Vec<(String, LocalPath)>) -> (r: String)
    ensures
        r@ == list_of(item_views(items@)),
{
    let ghost iv = item_views(items@);
    let mut r = String::new();
    let mut i: usize = 0;
    while i < items.len()
        invariant
            0 <= i <= items@.len(),
            iv == item_views(items@),
            r@ == list_of(iv.take(i as int)),
        decreases items@.len() - i,
    {
        let item = gen_list_item(items[i].0.as_str(), &items[i].1);
        r.append(item.as_str());
        assert(iv.take(i as int + 1).drop_last() =~= iv.take(i as int));
        i = i + 1;
    }
    assert(iv.take(items@.len() as int) =~= iv);
    r
}

} // verus!
