//! Searching the bytes of a file, and walking through what was found.
use vstd::prelude::*;
use vstd::string::{StrSliceExecFns, StringSliceAdditionalSpecFns};

verus! {

/// The places where a search found its pattern.
#[derive(Debug, PartialEq)]
pub struct SearchResults {
    /// The addresses at which the pattern begins, in the order found.
    pub match_addresses: Vec<u64>,
    /// The length of the pattern, by which a match is highlighted.
    pub query_length: usize,
}

/// `needle` stands in `haystack` at address `at`.
pub open spec fn occurs_at(haystack: Seq<u8>, needle: Seq<u8>, at: int) -> bool {
    &&& 0 <= at
    &&& at + needle.len() <= haystack.len()
    &&& haystack.subrange(at, at + needle.len()) == needle
}

/// The addresses below `below` at which `needle` stands in `haystack`, in
/// ascending order.
pub open spec fn occurrences(haystack: Seq<u8>, needle: Seq<u8>, below: int) -> Seq<u64>
    decreases below,
{
    if below <= 0 {
        Seq::empty()
    } else if occurs_at(haystack, needle, below - 1) {
        occurrences(haystack, needle, below - 1).push((below - 1) as u64)
    } else {
        occurrences(haystack, needle, below - 1)
    }
}

/// The addresses below `below` at which `first` or `second` stands in
/// `haystack`, in ascending order. An address at which both stand is named
/// twice.
pub open spec fn occurrences_of_either(
    haystack: Seq<u8>,
    first: Seq<u8>,
    second: Seq<u8>,
    below: int,
) -> Seq<u64>
    decreases below,
{
    if below <= 0 {
        Seq::empty()
    } else {
        let before = occurrences_of_either(haystack, first, second, below - 1);
        let with_first = if occurs_at(haystack, first, below - 1) {
            before.push((below - 1) as u64)
        } else {
            before
        };
        if occurs_at(haystack, second, below - 1) {
            with_first.push((below - 1) as u64)
        } else {
            with_first
        }
    }
}

/// The first of `matches`, in their order, that lies behind `address`.
pub open spec fn first_after(matches: Seq<u64>, address: u64) -> Option<u64>
    decreases matches.len(),
{
    if matches.len() == 0 {
        None
    } else if matches[0] > address {
        Some(matches[0])
    } else {
        first_after(matches.drop_first(), address)
    }
}

/// The last of `matches`, in their order, that lies before `address`.
pub open spec fn last_before(matches: Seq<u64>, address: u64) -> Option<u64>
    decreases matches.len(),
{
    if matches.len() == 0 {
        None
    } else if matches.last() < address {
        Some(matches.last())
    } else {
        last_before(matches.drop_last(), address)
    }
}

/// Whether `needle` stands in `haystack` at address `at`.
fn stands_at(haystack: &[u8], needle: &[u8], at: usize) -> (b: bool)
    requires
        at <= haystack@.len(),
    ensures
        b == occurs_at(haystack@, needle@, at as int),
{
    if needle.len() > haystack.len() - at {
        return false;
    }
    assert(haystack@.len() == haystack.len());
    let mut i: usize = 0;
    while i < needle.len()
        invariant
            at + needle@.len() <= haystack@.len() <= usize::MAX,
            i <= needle@.len(),
            forall|j: int| 0 <= j < i ==> haystack@[at + j] == needle@[j],
        decreases needle@.len() - i,
    {
        if haystack[at + i] != needle[i] {
            proof {
                let part = haystack@.subrange(at as int, at + needle@.len());
                assert(part[i as int] != needle@[i as int]);
            }
            return false;
        }
        i = i + 1;
    }
    assert(haystack@.subrange(at as int, at + needle@.len()) =~= needle@);
    true
}

/// The results stand for a search for a pattern of `length` bytes that was
/// found at `found`: there are none where it was not found.
pub open spec fn results_hold(results: Option<SearchResults>, found: Seq<u64>, length: int) -> bool {
    match results {
        None => found.len() == 0,
        Some(held) => found.len() > 0 && held.match_addresses@ == found && held.query_length
            == length,
    }
}

/// Takes note of a match at `address`: the first match opens the results, for
/// a pattern of `len` bytes, and every other match joins them.
pub fn add_to_search_results(address: u64, searchresults: Option<SearchResults>, len: usize) -> (r:
    Option<SearchResults>)
    ensures
        r is Some,
        match searchresults {
            None => r->0.match_addresses@ == Seq::<u64>::empty().push(address)
                && r->0.query_length == len,
            Some(held) => r->0.match_addresses@ == held.match_addresses@.push(address)
                && r->0.query_length == held.query_length,
        },
{
    match searchresults {
        None => {
            let mut match_addresses: Vec<u64> = Vec::new();
            match_addresses.push(address);
            Some(SearchResults { match_addresses, query_length: len })
        },
        Some(mut held) => {
            held.match_addresses.push(address);
            Some(held)
        },
    }
}

/// Searches `file` for the bytes `search`. An empty pattern is found nowhere.
pub fn search_hex(file: &[u8], search: Vec<u8>) -> (r: Option<SearchResults>)
    ensures
        r is Some <==> search@.len() > 0 && occurrences(file@, search@, file@.len() as int).len()
            > 0,
        r matches Some(found) ==> found.match_addresses@ == occurrences(
            file@,
            search@,
            file@.len() as int,
        ) && found.query_length == search@.len(),
{
    let mut search_results: Option<SearchResults> = None;
    let search_len = search.len();
    if search_len == 0 {
        return None;
    }
    let mut at: usize = 0;
    assert(file@.len() == file.len());
    while at < file.len()
        invariant
            at <= file@.len() <= usize::MAX,
            search_len == search@.len(),
            results_hold(search_results, occurrences(file@, search@, at as int), search_len as int),
        decreases file@.len() - at,
    {
        if stands_at(file, search.as_slice(), at) {
            proof {
                if search_results is None {
                    assert(occurrences(file@, search@, at as int) =~= Seq::<u64>::empty());
                }
            }
            search_results = add_to_search_results(at as u64, search_results, search_len);
        }
        at = at + 1;
    }
    search_results
}

/// Searches `file` for the bytes `search`, read back to front.
pub fn search_hex_reverse(file: &[u8], search: Vec<u8>) -> (r: Option<SearchResults>)
    ensures
        r is Some <==> search@.len() > 0 && occurrences(
            file@,
            search@.reverse(),
            file@.len() as int,
        ).len() > 0,
        r matches Some(found) ==> found.match_addresses@ == occurrences(
            file@,
            search@.reverse(),
            file@.len() as int,
        ) && found.query_length == search@.len(),
{
    let mut turned: Vec<u8> = Vec::new();
    let mut i: usize = search.len();
    while i > 0
        invariant
            i <= search@.len(),
            turned@.len() == search@.len() - i,
            forall|j: int| 0 <= j < turned@.len() ==> turned@[j] == search@[search@.len() - 1 - j],
        decreases i,
    {
        i = i - 1;
        turned.push(search[i]);
    }
    assert(turned@ =~= search@.reverse());
    search_hex(file, turned)
}

/// Searches `file` for the text `search`, byte for byte: the search tells
/// upper case from lower case.
pub fn search_ascii(file: &[u8], search: &str) -> (r: Option<SearchResults>)
    ensures
        r is Some <==> search.spec_bytes().len() > 0 && occurrences(
            file@,
            search.spec_bytes(),
            file@.len() as int,
        ).len() > 0,
        r matches Some(found) ==> found.match_addresses@ == occurrences(
            file@,
            search.spec_bytes(),
            file@.len() as int,
        ) && found.query_length == search.spec_bytes().len(),
{
    search_hex(file, search.as_bytes_vec())
}

/// Searches `file` for the bytes `search_bytes` and for the text
/// `search_ascii` at once. The highlight has the length of the text.
pub fn search_hex_ascii(file: &[u8], search_ascii: &str, search_bytes: Vec<u8>) -> (r: Option<
    SearchResults,
>)
    ensures
        r is Some <==> search_ascii.spec_bytes().len() > 0 && search_bytes@.len() > 0
            && occurrences_of_either(
            file@,
            search_bytes@,
            search_ascii.spec_bytes(),
            file@.len() as int,
        ).len() > 0,
        r matches Some(found) ==> found.match_addresses@ == occurrences_of_either(
            file@,
            search_bytes@,
            search_ascii.spec_bytes(),
            file@.len() as int,
        ) && found.query_length == search_ascii.spec_bytes().len(),
{
    let text = search_ascii.as_bytes();
    let mut search_results: Option<SearchResults> = None;
    let search_len = text.len();
    if search_len == 0 || search_bytes.len() == 0 {
        return None;
    }
    let mut at: usize = 0;
    assert(file@.len() == file.len());
    while at < file.len()
        invariant
            at <= file@.len() <= usize::MAX,
            text@ == search_ascii.spec_bytes(),
            search_len == text@.len(),
            results_hold(
                search_results,
                occurrences_of_either(file@, search_bytes@, text@, at as int),
                search_len as int,
            ),
        decreases file@.len() - at,
    {
        let ghost before = occurrences_of_either(file@, search_bytes@, text@, at as int);
        if stands_at(file, search_bytes.as_slice(), at) {
            proof {
                if search_results is None {
                    assert(before =~= Seq::<u64>::empty());
                }
            }
            search_results = add_to_search_results(at as u64, search_results, search_len);
        }
        if stands_at(file, text, at) {
            proof {
                if search_results is None {
                    assert(before =~= Seq::<u64>::empty());
                }
            }
            search_results = add_to_search_results(at as u64, search_results, search_len);
        }
        at = at + 1;
    }
    search_results
}

impl SearchResults {
    /// The first match, in the order found, that lies behind `address`.
    pub fn next_after(&self, address: u64) -> (r: Option<u64>)
        ensures
            r == first_after(self.match_addresses@, address),
    {
        let mut i: usize = 0;
        assert(self.match_addresses@.skip(0) =~= self.match_addresses@);
        while i < self.match_addresses.len()
            invariant
                i <= self.match_addresses@.len(),
                first_after(self.match_addresses@, address) == first_after(
                    self.match_addresses@.skip(i as int),
                    address,
                ),
            decreases self.match_addresses@.len() - i,
        {
            let ghost rest = self.match_addresses@.skip(i as int);
            assert(rest[0] == self.match_addresses@[i as int]);
            assert(rest.drop_first() =~= self.match_addresses@.skip(i + 1));
            if self.match_addresses[i] > address {
                return Some(self.match_addresses[i]);
            }
            i = i + 1;
        }
        None
    }

    /// The last match, in the order found, that lies before `address`.
    pub fn previous_before(&self, address: u64) -> (r: Option<u64>)
        ensures
            r == last_before(self.match_addresses@, address),
    {
        let mut i: usize = self.match_addresses.len();
        assert(self.match_addresses@.take(i as int) =~= self.match_addresses@);
        while i > 0
            invariant
                i <= self.match_addresses@.len(),
                last_before(self.match_addresses@, address) == last_before(
                    self.match_addresses@.take(i as int),
                    address,
                ),
            decreases i,
        {
            let ghost rest = self.match_addresses@.take(i as int);
            assert(rest.last() == self.match_addresses@[i - 1]);
            assert(rest.drop_last() =~= self.match_addresses@.take(i - 1));
            i = i - 1;
            if self.match_addresses[i] < address {
                return Some(self.match_addresses[i]);
            }
        }
        None
    }

    /// Whether byte `address` lies inside one of the matches.
    pub fn is_match(&self, address: u64) -> (b: bool)
        ensures
            b == exists|i: int|
                0 <= i < self.match_addresses@.len() && #[trigger] self.match_addresses@[i]
                    <= address < self.match_addresses@[i] + self.query_length,
    {
        let mut i: usize = 0;
        while i < self.match_addresses.len()
            invariant
                i <= self.match_addresses@.len(),
                forall|j: int|
                    0 <= j < i ==> !(#[trigger] self.match_addresses@[j] <= address
                        < self.match_addresses@[j] + self.query_length),
            decreases self.match_addresses@.len() - i,
        {
            let start = self.match_addresses[i];
            if start <= address && address - start < self.query_length as u64 {
                return true;
            }
            i = i + 1;
        }
        false
    }
}

} // verus!
