//! HTML listings of directories.
use vstd::prelude::*;
use crate::bytes::{append, decimal, ends_with, lit, push_decimal, text};
use crate::percent::{percent_encode, url_encoded};
use crate::response::{length_type_close, length_type_close_exec, Response};

verus! {

/// An entry of a directory; `kind` tells a directory (0) from a file (1).
#[derive(Debug)]
pub struct DirItem {
    pub name: Vec<u8>,
    pub kind: u8,
    pub size: u64,
}

pub type ItemView = (Seq<u8>, u8, u64);

pub open spec fn item_views(s: Seq<DirItem>) -> Seq<ItemView> {
    s.map_values(|d: DirItem| (d.name@, d.kind, d.size))
}

pub open spec fn of_kind(s: Seq<ItemView>, dirs: bool) -> Seq<ItemView>
    decreases s.len(),
{
    if s.len() == 0 {
        Seq::empty()
    } else if (s.last().1 == 0) == dirs {
        of_kind(s.drop_last(), dirs).push(s.last())
    } else {
        of_kind(s.drop_last(), dirs)
    }
}

/// Directories first, then the rest, each group in its original order.
pub open spec fn dirs_first(s: Seq<ItemView>) -> Seq<ItemView> {
    of_kind(s, true) + of_kind(s, false)
}

pub open spec fn last_index_of(s: Seq<u8>, c: u8) -> int
    decreases s.len(),
{
    if s.len() == 0 {
        -1
    } else if s.last() == c {
        s.len() - 1
    } else {
        last_index_of(s.drop_last(), c)
    }
}

/// The link to an entry: the listed path, a `/` unless it ends in one, and
/// the percent-encoded name.
pub open spec fn href(query_path: Seq<u8>, name: Seq<u8>) -> Seq<u8> {
    query_path + (if ends_with(query_path, seq![47u8]) {
        Seq::empty()
    } else {
        seq![47u8]
    }) + url_encoded(name)
}

/// A size in KB, or in MB from 1024 KB on (both rounded down).
pub open spec fn size_text(size: u64) -> Seq<u8> {
    let kb = size / 1024;
    if kb >= 1024 {
        decimal((kb / 1024) as nat) + text(" MB")
    } else {
        decimal(kb as nat) + text(" KB")
    }
}

pub open spec fn row(query_path: Seq<u8>, d: ItemView) -> Seq<u8> {
    if d.1 == 0 {
        text("<tr><td><a href=\"") + href(query_path, d.0) + text("\">") + d.0 + text(
            "...</a></td><td>DIR</td><td></td></tr>",
        )
    } else if d.1 == 1 {
        text("<tr><td><a href=\"") + href(query_path, d.0) + text("\">") + d.0 + text(
            "</a></td><td></td><td>",
        ) + size_text(d.2) + text("</td></tr>")
    } else {
        Seq::empty()
    }
}

pub open spec fn rows(query_path: Seq<u8>, s: Seq<ItemView>) -> Seq<u8>
    decreases s.len(),
{
    if s.len() == 0 {
        Seq::empty()
    } else {
        rows(query_path, s.drop_last()) + row(query_path, s.last())
    }
}

/// The "Back" link to the parent, except at `/`.
pub open spec fn parent_link(query_path: Seq<u8>) -> Seq<u8> {
    if query_path == seq![47u8] {
        Seq::empty()
    } else {
        let last = last_index_of(query_path, 47);
        let up = if last <= 0 {
            seq![47u8]
        } else {
            query_path.subrange(0, last)
        };
        text("<a class=\"up\" href=\"") + up + text("\">Back</a>")
    }
}

pub const DIR_1: &'static str = "<!DOCTYPE html><html><head><meta charset=\"utf-8\"><title>Index of ";
pub const DIR_2: &'static str = "</title></head><body><h1>Index of ";
pub const DIR_3: &'static str = "</h1>";
pub const DIR_4: &'static str = "<table><tr><th>Name</th><th>Type</th><th>Size</th></tr>";
pub const DIR_5: &'static str = "</table><hr><p>";
pub const DIR_6: &'static str = " &middot; Storm Server ";
pub const DIR_7: &'static str = "</p></body></html>";

pub open spec fn dir_body(query_path: Seq<u8>, items: Seq<ItemView>, name: Seq<u8>, version: Seq<u8>) -> Seq<u8> {
    text(DIR_1) + query_path + text(DIR_2) + query_path + text(DIR_3) + parent_link(query_path)
        + text(DIR_4) + rows(query_path, items) + text(DIR_5) + name + text(DIR_6) + version
        + text(DIR_7)
}

fn copy_item(d: &DirItem) -> (r: DirItem)
    ensures
        (r.name@, r.kind, r.size) == (d.name@, d.kind, d.size),
{
    let mut name: Vec<u8> = Vec::new();
    append(&mut name, d.name.as_slice());
    assert(name@ =~= d.name@);
    DirItem { name, kind: d.kind, size: d.size }
}

fn push_kind(out: &mut Vec<DirItem>, entries: &Vec<DirItem>, dirs: bool)
    ensures
        item_views(final(out)@) == item_views(old(out)@) + of_kind(item_views(entries@), dirs),
{
    let ghost s = item_views(entries@);
    let ghost start = item_views(out@);
    let mut i: usize = 0;
    while i < entries.len()
        invariant
            i <= entries@.len(),
            s == item_views(entries@),
            item_views(out@) == start + of_kind(s.subrange(0, i as int), dirs),
        decreases entries@.len() - i,
    {
        proof {
            assert(s.subrange(0, i + 1).drop_last() =~= s.subrange(0, i as int));
        }
        if (entries[i].kind == 0) == dirs {
            let c = copy_item(&entries[i]);
            let ghost before = item_views(out@);
            out.push(c);
            assert(item_views(out@) =~= before.push(s[i as int]));
        }
        i = i + 1;
    }
    assert(s.subrange(0, entries@.len() as int) =~= s);
}

fn href_exec(query_path: &[u8], name: &[u8]) -> (r: Vec<u8>)
    ensures
        r@ == href(query_path@, name@),
{
    let mut out: Vec<u8> = Vec::new();
    append(&mut out, query_path);
    let ends = query_path.len() > 0 && query_path[query_path.len() - 1] == 47;
    let slash = vec![47u8];
    assert(slash@ =~= seq![47u8]);
    assert(ends == ends_with(query_path@, seq![47u8])) by {
        if query_path@.len() > 0 {
            assert(query_path@.subrange(query_path@.len() - 1, query_path@.len() as int) =~= seq![
                query_path@.last(),
            ]);
        }
    }
    if !ends {
        out.push(47u8);
    }
    let enc = percent_encode(name);
    append(&mut out, enc.as_slice());
    assert(out@ =~= href(query_path@, name@));
    out
}

fn size_text_exec(size: u64) -> (r: Vec<u8>)
    ensures
        r@ == size_text(size),
{
    let kb = size / 1024;
    let mut out: Vec<u8> = Vec::new();
    if kb >= 1024 {
        push_decimal(&mut out, kb / 1024);
        append(&mut out, lit(" MB").as_slice());
    } else {
        push_decimal(&mut out, kb);
        append(&mut out, lit(" KB").as_slice());
    }
    assert(out@ =~= size_text(size));
    out
}

fn push_row(out: &mut Vec<u8>, query_path: &[u8], d: &DirItem)
    ensures
        final(out)@ == old(out)@ + row(query_path@, (d.name@, d.kind, d.size)),
{
    if d.kind == 0 {
        append(out, lit("<tr><td><a href=\"").as_slice());
        append(out, href_exec(query_path, d.name.as_slice()).as_slice());
        append(out, lit("\">").as_slice());
        append(out, d.name.as_slice());
        append(out, lit("...</a></td><td>DIR</td><td></td></tr>").as_slice());
    } else if d.kind == 1 {
        append(out, lit("<tr><td><a href=\"").as_slice());
        append(out, href_exec(query_path, d.name.as_slice()).as_slice());
        append(out, lit("\">").as_slice());
        append(out, d.name.as_slice());
        append(out, lit("</a></td><td></td><td>").as_slice());
        append(out, size_text_exec(d.size).as_slice());
        append(out, lit("</td></tr>").as_slice());
    }
    assert(final(out)@ =~= old(out)@ + row(query_path@, (d.name@, d.kind, d.size)));
}

fn parent_link_exec(query_path: &[u8]) -> (r: Vec<u8>)
    ensures
        r@ == parent_link(query_path@),
{
    let root = vec![47u8];
    assert(root@ =~= seq![47u8]);
    if crate::bytes::bytes_eq(query_path, root.as_slice()) {
        return Vec::new();
    }
    let mut i: usize = query_path.len();
    assert(query_path@.subrange(0, i as int) =~= query_path@);
    while i > 0 && query_path[i - 1] != 47
        invariant
            i <= query_path@.len(),
            last_index_of(query_path@, 47) == last_index_of(query_path@.subrange(0, i as int), 47),
        decreases i,
    {
        assert(query_path@.subrange(0, i as int).drop_last() =~= query_path@.subrange(0, i - 1));
        i = i - 1;
    }
    let ghost last = last_index_of(query_path@, 47);
    proof {
        if i == 0 {
            assert(query_path@.subrange(0, 0) =~= Seq::<u8>::empty());
        } else {
            assert(query_path@.subrange(0, i as int).last() == query_path@[i - 1]);
        }
    }
    let up = if i <= 1 {
        root
    } else {
        crate::bytes::copy_range(query_path, 0, i - 1)
    };
    assert(last == i - 1 || (i == 0 && last == -1));
    let mut out = lit("<a class=\"up\" href=\"");
    append(&mut out, up.as_slice());
    append(&mut out, lit("\">Back</a>").as_slice());
    assert(out@ =~= parent_link(query_path@));
    out
}

impl Response {
    /// Orders directory entries: directories first, then files, each group
    /// in the order given.
    pub fn get_dir_items(entries: &Vec<DirItem>) -> (r: Vec<DirItem>)
        ensures
            item_views(r@) == dirs_first(item_views(entries@)),
    {
        let mut out: Vec<DirItem> = Vec::new();
        push_kind(&mut out, entries, true);
        push_kind(&mut out, entries, false);
        assert(item_views(out@) =~= dirs_first(item_views(entries@)));
        out
    }

    /// The listing of a directory as a 200 HTML response: directories
    /// first, then files, each group in the order given. `name` is the
    /// host's domain and `version` the server's version.
    pub fn dir(entries: &Vec<DirItem>, query_path: &[u8], name: &[u8], version: &[u8]) -> (r: Response)
        ensures
            r.spec_status() == 200,
            r.spec_inline() == Some(
                dir_body(query_path@, dirs_first(item_views(entries@)), name@, version@),
            ),
            r.spec_headers() == length_type_close(
                dir_body(query_path@, dirs_first(item_views(entries@)), name@, version@).len(),
                text("text/html"),
            ),
    {
        let sorted = Response::get_dir_items(entries);
        let items = &sorted;
        let mut body = lit(DIR_1);
        append(&mut body, query_path);
        append(&mut body, lit(DIR_2).as_slice());
        append(&mut body, query_path);
        append(&mut body, lit(DIR_3).as_slice());
        append(&mut body, parent_link_exec(query_path).as_slice());
        append(&mut body, lit(DIR_4).as_slice());
        let ghost prefix = body@;
        let ghost s = item_views(items@);
        let mut i: usize = 0;
        while i < items.len()
            invariant
                i <= items@.len(),
                s == item_views(items@),
                body@ == prefix + rows(query_path@, s.subrange(0, i as int)),
            decreases items@.len() - i,
        {
            push_row(&mut body, query_path, &items[i]);
            proof {
                let sub = s.subrange(0, i + 1);
                assert(sub.drop_last() =~= s.subrange(0, i as int));
                assert(body@ =~= prefix + rows(query_path@, sub));
            }
            i = i + 1;
        }
        assert(s.subrange(0, items@.len() as int) =~= s);
        append(&mut body, lit(DIR_5).as_slice());
        append(&mut body, name);
        append(&mut body, lit(DIR_6).as_slice());
        append(&mut body, version);
        append(&mut body, lit(DIR_7).as_slice());
        assert(body@ =~= dir_body(query_path@, s, name@, version@));
        let headers = length_type_close_exec(body.len() as u64, lit("text/html"));
        Response::with_body(200, headers, body)
    }
}

} // verus!
