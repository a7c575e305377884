use vstd::prelude::*;

use crate::pagination::{offset_of, page_count, pages_of, PAGE_LIMIT};

verus! {

/// One catalogue entry, as the listing shows it.
#[derive(Debug, Clone, PartialEq, Eq)]
pub struct ModRecord {
    pub id: i64,
    pub title: String,
    pub icon: String,
    pub author: String,
    pub author_link: String,
    pub description: String,
    /// Free-form text, or a list written as JSON text.
    pub tags: String,
    pub mod_link: String,
    pub download_link: String,
    /// The rating as the store writes it in decimal.
    pub rating: String,
    pub reviews: i64,
    /// How often the entry was downloaded: the key of the listing's order.
    pub downloads: i64,
    pub last_updated: String,
}

/// Counts every catalogue entry.
pub const COUNT_QUERY: &'static str = "SELECT COUNT(*) FROM mods";

/// Fetches one window of the catalogue, most downloaded first; entries with
/// as many downloads come by ascending identifier. Its parameters are the
/// window's limit and offset. Tags, rating and time stamp come as text.
pub const PAGE_QUERY: &'static str = "SELECT id, title, icon, author, author_link, description, CAST(tags AS CHAR) AS tags, mod_link, download_link, CAST(rating AS CHAR) AS rating, reviews, downloads, CAST(last_updated AS CHAR) AS last_updated FROM mods ORDER BY `downloads` DESC, `id` ASC LIMIT ? OFFSET ?";

/// The order of the listing: downloads descending, then identifier ascending.
pub open spec fn listed_before(a: ModRecord, b: ModRecord) -> bool {
    a.downloads > b.downloads || (a.downloads == b.downloads && a.id < b.id)
}

/// A catalogue in the order of the listing.
pub open spec fn in_listing_order(table: Seq<ModRecord>) -> bool {
    forall|i: int, j: int| 0 <= i < j < table.len() ==> listed_before(table[i], table[j])
}

/// Each record downloads at least as often as every record after it.
pub open spec fn downloads_descending(s: Seq<ModRecord>) -> bool {
    forall|i: int, j: int| 0 <= i < j < s.len() ==> s[i].downloads >= s[j].downloads
}

/// The records that page window `offset` shows of a catalogue in listing order.
pub open spec fn window_of(table: Seq<ModRecord>, offset: int) -> Seq<ModRecord> {
    let start = if offset < table.len() { offset } else { table.len() as int };
    let end = if offset + PAGE_LIMIT < table.len() { offset + PAGE_LIMIT } else { table.len() as int };
    table.subrange(start, end)
}

/// The envelope of a listing, in mathematical terms.
pub struct PageView {
    pub limit: int,
    pub total_rows: int,
    pub pages: int,
    pub mods: Seq<ModRecord>,
}

/// The envelope for `total_rows` records in all, of which `rows` are shown.
pub open spec fn envelope_of(total_rows: int, rows: Seq<ModRecord>) -> PageView {
    PageView { limit: PAGE_LIMIT as int, total_rows, pages: pages_of(total_rows), mods: rows }
}

/// The envelope that page `page` of the catalogue `table` gets.
pub open spec fn listing_of(page: int, table: Seq<ModRecord>) -> PageView {
    envelope_of(table.len() as int, window_of(table, offset_of(page)))
}

/// The answer to a listing request.
#[derive(Debug, Clone, PartialEq, Eq)]
pub struct PageResponse {
    /// Records per page.
    pub limit: i64,
    /// Records in the whole catalogue.
    pub total_rows: i64,
    /// Pages that the catalogue fills.
    pub pages: i64,
    /// The page's records, most downloaded first.
    pub mods: Vec<ModRecord>,
}

impl View for PageResponse {
    type V = PageView;

    open spec fn view(&self) -> PageView {
        PageView {
            limit: self.limit as int,
            total_rows: self.total_rows as int,
            pages: self.pages as int,
            mods: self.mods@,
        }
    }
}

/// Relies on phpify::array::array_unshift, which inserts the value at the
/// front of the vector.
pub assume_specification<T>[ phpify::array::array_unshift::<T> ](array: &mut Vec<T>, value: T)
    ensures
        final(array)@ == seq![value] + old(array)@,
;

/// Shapes what the store returned into the envelope: `total_rows` is the
/// count of all records, `rows` the fetched window in the store's order,
/// which the envelope keeps.
pub fn build_response(total_rows: i64, rows: Vec<ModRecord>) -> (r: PageResponse)
    requires
        total_rows >= 0,
    ensures
        r@ == envelope_of(total_rows as int, rows@),
{
    let mut rest = rows;
    let mut queue: Vec<ModRecord> = Vec::new();
    while rest.len() > 0
        invariant
            rows@ == rest@ + queue@,
        decreases rest.len(),
    {
        let ghost before = rest@;
        let last = rest.pop();
        match last {
            Some(record) => {
                phpify::array::array_unshift(&mut queue, record);
                assert(before == rest@.push(record));
            },
            None => {},
        }
        assert(rows@ =~= rest@ + queue@);
    }
    assert(rows@ =~= queue@);
    PageResponse { limit: PAGE_LIMIT, total_rows, pages: page_count(total_rows), mods: queue }
}

/// A page never holds more than the limit: it holds `min(50, max(0, N - offset))`
/// records of a catalogue of `N`.
pub proof fn lemma_page_size(page: int, table: Seq<ModRecord>)
    requires
        page >= 1,
    ensures
        listing_of(page, table).mods.len() <= PAGE_LIMIT,
        listing_of(page, table).mods.len() == ({
            let left = if table.len() - offset_of(page) > 0 {
                table.len() - offset_of(page)
            } else {
                0
            };
            if left < PAGE_LIMIT {
                left
            } else {
                PAGE_LIMIT as int
            }
        }),
{
    assert(offset_of(page) >= 0) by (nonlinear_arith)
        requires
            page >= 1,
            offset_of(page) == (page - 1) * 50,
    ;
}

/// Of a catalogue in listing order, a page shows every record before the
/// records that were downloaded less often.
pub proof fn lemma_page_order(page: int, table: Seq<ModRecord>)
    requires
        page >= 1,
        in_listing_order(table),
    ensures
        downloads_descending(listing_of(page, table).mods),
{
    assert(offset_of(page) >= 0) by (nonlinear_arith)
        requires
            page >= 1,
            offset_of(page) == (page - 1) * 50,
    ;
    let start = if offset_of(page) < table.len() { offset_of(page) } else { table.len() as int };
    let mods = listing_of(page, table).mods;
    assert forall|i: int, j: int| 0 <= i < j < mods.len() implies mods[i].downloads
        >= mods[j].downloads by {
        assert(mods[i] == table[start + i]);
        assert(mods[j] == table[start + j]);
        assert(listed_before(table[start + i], table[start + j]));
    }
}

/// Two answers to the same page of the same catalogue are the same envelope.
pub proof fn lemma_same_request_same_envelope(
    page: int,
    table: Seq<ModRecord>,
    a: PageResponse,
    b: PageResponse,
)
    requires
        a@ == listing_of(page, table),
        b@ == listing_of(page, table),
    ensures
        a.limit == b.limit,
        a.total_rows == b.total_rows,
        a.pages == b.pages,
        a.mods@ == b.mods@,
{
}

} // verus!
