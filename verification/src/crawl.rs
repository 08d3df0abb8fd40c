//! The bookkeeping of a search through linked pages, breadth first: which
//! pages were visited, from which page each page was reached, and whether
//! the target was found.
//!
//! The search itself fetches pages and passes addresses around; here stand
//! the decisions: what to do with a page that arrives, and with a link that a
//! page holds.

use crate::dict::Dict;
use crate::text::same_text;
use crate::wire::texts;
use vstd::prelude::*;

verus! {

/// What is to be done with a page that arrives.
#[derive(Clone, Copy, Debug, PartialEq, Eq, Structural)]
pub enum Visit {
    /// The target was found: the search is over.
    Stop,
    /// The page was visited before: pass it over.
    Skip,
    /// The page is new: fetch it and follow its links.
    Fetch,
}

/// What is to be done with a link.
#[derive(Clone, Copy, Debug, PartialEq, Eq, Structural)]
pub enum Follow {
    /// The link is the target: follow no more links of this page.
    Found,
    /// The link leads to a page that was not reached before: hand it on.
    Enqueue,
    /// The page of the link was reached before: pass it over.
    Drop,
}

/// The state of a search for the page `target`.
pub struct Crawl {
    target: String,
    visited: Dict<bool>,
    parents: Dict<String>,
    total_links: usize,
    found: bool,
}

/// The way that leads to `at`: `at` at its end, in front of it the page from
/// which `at` was reached, and so on, back to `start`, to a page that was
/// reached from no page, or as far as `fuel` steps lead.
pub open spec fn way_to(
    parents: Map<Seq<char>, Seq<char>>,
    at: Seq<char>,
    start: Seq<char>,
    fuel: nat,
) -> Seq<Seq<char>>
    decreases fuel,
{
    if at == start || fuel == 0 || !parents.contains_key(at) {
        seq![at]
    } else {
        way_to(parents, parents[at], start, (fuel - 1) as nat).push(at)
    }
}

impl Crawl {
    /// The page that is searched for.
    pub closed spec fn target(&self) -> Seq<char> {
        self.target@
    }

    /// The pages that were visited.
    pub closed spec fn visited(&self) -> Set<Seq<char>> {
        self.visited@.dom()
    }

    /// For every page that was reached over a link, the page that held the
    /// link.
    pub closed spec fn parents(&self) -> Map<Seq<char>, Seq<char>> {
        texts(self.parents@)
    }

    /// How many pages were reached over a link.
    pub closed spec fn reached(&self) -> nat {
        self.parents.keys().len()
    }

    /// How many links were followed, counted modulo the range of `usize`.
    pub closed spec fn total_links(&self) -> usize {
        self.total_links
    }

    /// Whether the target was found.
    pub closed spec fn found(&self) -> bool {
        self.found
    }

    /// The invariant: the two tables are well formed.
    pub closed spec fn wf(&self) -> bool {
        self.visited.wf() && self.parents.wf()
    }

    /// A search for `target` that has visited nothing.
    pub fn new(target: String) -> (crawl: Crawl)
        ensures
            crawl.wf(),
            crawl.target() == target@,
            crawl.visited() == Set::<Seq<char>>::empty(),
            crawl.parents() == Map::<Seq<char>, Seq<char>>::empty(),
            crawl.total_links() == 0,
            !crawl.found(),
    {
        let crawl = Crawl {
            target,
            visited: Dict::new(),
            parents: Dict::new(),
            total_links: 0,
            found: false,
        };
        assert(crawl.visited() =~= Set::<Seq<char>>::empty());
        assert(crawl.parents() =~= Map::<Seq<char>, Seq<char>>::empty());
        crawl
    }

    /// Whether the target was found.
    pub fn is_found(&self) -> (found: bool)
        ensures
            found == self.found(),
    {
        self.found
    }

    /// How many links were followed.
    pub fn links_followed(&self) -> (n: usize)
        ensures
            n == self.total_links(),
    {
        self.total_links
    }

    /// The page `current` arrives. Once the target is found the search
    /// stops; a page that was visited is skipped; any other page is visited
    /// now and is to be fetched.
    pub fn arrive(&mut self, current: &str) -> (visit: Visit)
        requires
            old(self).wf(),
        ensures
            final(self).wf(),
            final(self).target() == old(self).target(),
            final(self).parents() == old(self).parents(),
            final(self).reached() == old(self).reached(),
            final(self).total_links() == old(self).total_links(),
            final(self).found() == old(self).found(),
            visit == (if old(self).found() {
                Visit::Stop
            } else if old(self).visited().contains(current@) {
                Visit::Skip
            } else {
                Visit::Fetch
            }),
            final(self).visited() == (if visit == Visit::Fetch {
                old(self).visited().insert(current@)
            } else {
                old(self).visited()
            }),
    {
        if self.found {
            return Visit::Stop;
        }
        if self.visited.contains_key(current) {
            return Visit::Skip;
        }
        self.visited.insert(current.to_owned(), true);
        assert(self.visited() =~= old(self).visited().insert(current@));
        Visit::Fetch
    }

    /// The page `current` holds the link `link`. The link is counted. If it
    /// is the target, the target is found, reached from `current`. If its
    /// page was not reached before, it is reached from `current` now and is
    /// to be handed on. Otherwise nothing changes but the count.
    pub fn follow(&mut self, current: &str, link: &str) -> (follow: Follow)
        requires
            old(self).wf(),
        ensures
            final(self).wf(),
            final(self).target() == old(self).target(),
            final(self).visited() == old(self).visited(),
            final(self).total_links() == (if old(self).total_links() == usize::MAX {
                0
            } else {
                old(self).total_links() + 1
            }),
            follow == (if link@ == old(self).target() {
                Follow::Found
            } else if old(self).parents().contains_key(link@) {
                Follow::Drop
            } else {
                Follow::Enqueue
            }),
            final(self).found() == (old(self).found() || follow == Follow::Found),
            final(self).parents() == (if follow == Follow::Drop {
                old(self).parents()
            } else {
                old(self).parents().insert(link@, current@)
            }),
    {
        self.total_links = if self.total_links == usize::MAX {
            0
        } else {
            self.total_links + 1
        };
        let ghost before = self.parents@;
        if same_text(link, self.target.as_str()) {
            self.found = true;
            let from = current.to_owned();
            self.parents.insert(link.to_owned(), from);
            assert(texts(self.parents@) =~= texts(before).insert(link@, current@));
            return Follow::Found;
        }
        assert(texts(before).contains_key(link@) == before.contains_key(link@));
        if self.parents.contains_key(link) {
            Follow::Drop
        } else {
            let from = current.to_owned();
            self.parents.insert(link.to_owned(), from);
            assert(texts(self.parents@) =~= texts(before).insert(link@, current@));
            Follow::Enqueue
        }
    }

    /// The way from `start` to the target, as far as it is known.
    pub fn path(&self, start: &str) -> (way: Vec<String>)
        requires
            self.wf(),
        ensures
            way@.map_values(|s: String| s@) == way_to(
                self.parents(),
                self.target(),
                start@,
                self.reached(),
            ),
    {
        let mut back: Vec<String> = Vec::new();
        let mut at = self.target.clone();
        let mut fuel = self.parents.len();
        let ghost whole = way_to(self.parents(), self.target(), start@, self.reached());
        loop
            invariant_except_break
                whole == way_to(self.parents(), at@, start@, fuel as nat) + back@.map_values(
                    |s: String| s@,
                ).reverse(),
            invariant
                self.wf(),
            ensures
                whole == back@.map_values(|s: String| s@).reverse(),
            decreases fuel,
        {
            let ghost shown = back@.map_values(|s: String| s@);
            if same_text(at.as_str(), start) || fuel == 0 {
                back.push(at);
                proof {
                    let now = back@.map_values(|s: String| s@);
                    assert(now =~= shown.push(at@));
                    assert(now.reverse() =~= seq![at@] + shown.reverse());
                }
                break ;
            }
            assert(self.parents().contains_key(at@) == self.parents@.contains_key(at@));
            match self.parents.get(at.as_str()) {
                Some(parent) => {
                    let next = parent.clone();
                    assert(self.parents()[at@] == next@);
                    back.push(at);
                    proof {
                        let now = back@.map_values(|s: String| s@);
                        assert(now =~= shown.push(at@));
                        assert(now.reverse() =~= seq![at@] + shown.reverse());
                        assert(whole =~= way_to(
                            self.parents(),
                            next@,
                            start@,
                            (fuel - 1) as nat,
                        ) + now.reverse());
                    }
                    at = next;
                    fuel -= 1;
                },
                None => {
                    back.push(at);
                    proof {
                        let now = back@.map_values(|s: String| s@);
                        assert(now =~= shown.push(at@));
                        assert(now.reverse() =~= seq![at@] + shown.reverse());
                    }
                    break ;
                },
            }
        }
        let mut way: Vec<String> = Vec::new();
        let ghost turned = back@.map_values(|s: String| s@);
        while back.len() > 0
            invariant
                turned.reverse() == way@.map_values(|s: String| s@) + back@.map_values(
                    |s: String| s@,
                ).reverse(),
            decreases back.len(),
        {
            let ghost left = back@.map_values(|s: String| s@);
            let ghost done = way@.map_values(|s: String| s@);
            let last = back.pop().unwrap();
            way.push(last);
            proof {
                let now_left = back@.map_values(|s: String| s@);
                let now_done = way@.map_values(|s: String| s@);
                assert(now_left =~= left.drop_last());
                assert(now_done =~= done.push(last@));
                assert(left.reverse() =~= seq![last@] + now_left.reverse());
                assert(turned.reverse() =~= now_done + now_left.reverse());
            }
        }
        proof {
            assert(back@.map_values(|s: String| s@).reverse() =~= Seq::<Seq<char>>::empty());
            assert(turned.reverse() =~= way@.map_values(|s: String| s@));
        }
        way
    }
}

} // verus!
