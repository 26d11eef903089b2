//! Ticks and snapshots: what the pages of the auctions endpoint add up to.

use crate::auction::{AuctionPageResponse, AuctionSnapshot, RawAuction};
use crate::text::{decimal, law_decimal_reads_back, push_decimal};
use vstd::prelude::*;

verus! {

/// Why a page cannot be used.
#[derive(Debug, Clone, Copy, PartialEq, Eq, Structural)]
pub enum IngestionError {
    /// The endpoint said that it had failed.
    ApiUnsuccessful { page: u32 },
}

/// The address of one page of auctions.
pub open spec fn page_address(base: Seq<char>, page: nat) -> Seq<char> {
    base + "/skyblock/auctions?page="@ + decimal(page)
}

/// The address of one page of auctions.
pub fn page_url(base_url: &str, page: u32) -> (url: String)
    ensures
        url@ == page_address(base_url@, page as nat),
{
    let mut url = base_url.to_owned();
    url.append("/skyblock/auctions?page=");
    push_decimal(&mut url, page as u64);
    url
}

/// Accepts a page unless the endpoint said that it had failed.
pub fn accept_page(page: u32, response: AuctionPageResponse) -> (accepted: Result<
    AuctionPageResponse,
    IngestionError,
>)
    ensures
        accepted == if response.success {
            Ok::<AuctionPageResponse, IngestionError>(response)
        } else {
            Err(IngestionError::ApiUnsuccessful { page })
        },
{
    if !response.success {
        return Err(IngestionError::ApiUnsuccessful { page });
    }
    Ok(response)
}

/// `pages` are those that are still to be fetched once the first is there.
pub open spec fn are_remaining(pages: Seq<u32>, total_pages: u32) -> bool {
    &&& pages.len() == if total_pages > 1 {
        total_pages - 1
    } else {
        0
    }
    &&& forall|i: int| 0 <= i < pages.len() ==> #[trigger] pages[i] == i + 1
}

/// The pages that are still to be fetched once the first is there.
pub fn remaining_pages(total_pages: u32) -> (pages: Vec<u32>)
    ensures
        are_remaining(pages@, total_pages),
{
    let mut pages: Vec<u32> = Vec::new();
    let mut page: u32 = 1;
    while page < total_pages
        invariant
            page >= 1,
            page <= total_pages || page == 1,
            pages@.len() == page - 1,
            forall|i: int| 0 <= i < pages@.len() ==> #[trigger] pages@[i] == i + 1,
        decreases total_pages - page,
    {
        pages.push(page);
        page += 1;
    }
    pages
}

/// What to do after a look at the first page.
pub enum Poll {
    /// Nothing new: sleep and look again.
    Wait,
    /// A new tick: fetch these pages too, and assemble the snapshot.
    NewTick { first_page: AuctionPageResponse, pages: Vec<u32> },
}

/// Watches the first page for a new tick.
pub struct TickPoller {
    pub last_known_tick: i64,
}

impl TickPoller {
    /// Takes a look at the first page. It belongs to a new tick if its
    /// timestamp is not the one last known.
    pub fn look_at(&mut self, first_page: AuctionPageResponse) -> (poll: Poll)
        ensures
            match poll {
                Poll::Wait => first_page.last_updated == old(self).last_known_tick
                    && *final(self) == *old(self),
                Poll::NewTick { first_page: page, pages } => {
                    &&& first_page.last_updated != old(self).last_known_tick
                    &&& page == first_page
                    &&& are_remaining(pages@, first_page.total_pages)
                    &&& final(self).last_known_tick == first_page.last_updated
                },
            },
    {
        if first_page.last_updated == self.last_known_tick {
            return Poll::Wait;
        }
        self.last_known_tick = first_page.last_updated;
        let pages = remaining_pages(first_page.total_pages);
        Poll::NewTick { first_page, pages }
    }
}

/// The auctions of the pages that came, in the order of the pages.
pub open spec fn gathered(pages: Seq<Option<AuctionPageResponse>>) -> Seq<RawAuction>
    decreases pages.len(),
{
    if pages.len() == 0 {
        Seq::empty()
    } else {
        match pages.last() {
            Some(page) => gathered(pages.drop_last()) + page.auctions@,
            None => gathered(pages.drop_last()),
        }
    }
}

/// Merges the pages of a tick. A page that could not be fetched (`None`) is
/// left out, and one of a later tick is kept: the next tick catches up.
pub fn assemble(first_page: AuctionPageResponse, rest: Vec<Option<AuctionPageResponse>>) -> (snapshot:
    AuctionSnapshot)
    ensures
        snapshot.last_updated == first_page.last_updated,
        snapshot.auctions@ == first_page.auctions@ + gathered(rest@),
{
    let ghost first = first_page.auctions@;
    let ghost all = rest@;
    let last_updated: i64 = first_page.last_updated;
    let mut auctions = first_page.auctions;
    assert(first + gathered(all.take(0)) =~= first);
    for page in iter: rest
        invariant
            iter.seq() == all,
            auctions@ == first + gathered(all.take(iter.index())),
    {
        let ghost i = iter.index();
        assert(all.take(i + 1).drop_last() =~= all.take(i));
        if let Some(page) = page {
            let mut more = page.auctions;
            let ghost before = auctions@;
            let ghost added = more@;
            auctions.append(&mut more);
            assert(before + added =~= first + (gathered(all.take(i)) + added));
        }
    }
    assert(all.take(all.len() as int) =~= all);
    AuctionSnapshot { last_updated, auctions }
}

/// Every page behind the first is fetched once: its number is in the list,
/// and no other.
pub proof fn law_every_page_is_fetched_once(pages: Seq<u32>, total_pages: u32)
    requires
        are_remaining(pages, total_pages),
    ensures
        pages.no_duplicates(),
        forall|page: u32| #[trigger] pages.contains(page) <==> 1 <= page < total_pages,
{
    assert forall|page: u32| #[trigger] pages.contains(page) <==> 1 <= page < total_pages by {
        if 1 <= page < total_pages {
            assert(pages[page - 1] == page);
        }
    }
}

/// A page that came adds its auctions behind those of the pages before it,
/// and one that did not adds nothing.
pub proof fn law_pages_are_gathered_in_order(
    pages: Seq<Option<AuctionPageResponse>>,
    page: AuctionPageResponse,
)
    ensures
        gathered(Seq::<Option<AuctionPageResponse>>::empty()).len() == 0,
        gathered(pages.push(Some(page))) == gathered(pages) + page.auctions@,
        gathered(pages.push(None)) == gathered(pages),
{
    assert(pages.push(Some(page)).drop_last() =~= pages);
    assert(pages.push(None).drop_last() =~= pages);
}

/// Different pages have different addresses, all below the same base.
pub proof fn law_page_addresses_differ(base: Seq<char>, page: nat, other: nat)
    ensures
        page_address(base, page) == base + ("/skyblock/auctions?page="@ + decimal(page)),
        page != other ==> page_address(base, page) != page_address(base, other),
{
    let path = base + "/skyblock/auctions?page="@;
    assert(page_address(base, page) =~= base + ("/skyblock/auctions?page="@ + decimal(page)));
    law_decimal_reads_back(page);
    law_decimal_reads_back(other);
    if page_address(base, page) == page_address(base, other) {
        assert(page_address(base, page).skip(path.len() as int) =~= decimal(page));
        assert(page_address(base, other).skip(path.len() as int) =~= decimal(other));
    }
}

} // verus!
