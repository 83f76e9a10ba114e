//! The catalog's item record and the search filter over it.
use vstd::prelude::*;

verus! {

/// One entry of the catalog, loaded once and never changed.
#[derive(Clone, Debug)]
pub struct Item {
    pub id: u16,
    pub name: String,
    pub display_name: String,
    /// The crafting station; empty when none is needed.
    pub station: String,
    /// Pairs of (catalog index, quantity) that crafting this item consumes.
    pub ingredients: Vec<[u16; 2]>,
    pub quantity: u16,
    /// How the item is obtained; empty when it is crafted.
    pub acquisition: String,
    pub wiki: String,
}

/// The lowercase form of a string, as Unicode defines it.
pub uninterp spec fn lower_of(s: Seq<char>) -> Seq<char>;

/// Relies on `str::to_lowercase`: the result depends on the characters alone,
/// and maps each character, so an empty string stays empty.
#[verifier::external_body]
fn lowercase(s: &str) -> (r: String)
    ensures
        r@ == lower_of(s@),
        s@.len() == 0 ==> r@.len() == 0,
{
    s.to_lowercase()
}

/// `needle` occurs in `hay` as a contiguous run of characters.
pub open spec fn contains_seq(hay: Seq<char>, needle: Seq<char>) -> bool {
    exists|i: int| 0 <= i <= hay.len() - needle.len() && #[trigger] hay.subrange(i, i + needle.len()) == needle
}

/// A search query matches a display name when the lowercase query occurs in
/// the lowercase name.
pub open spec fn matches(query: Seq<char>, name: Seq<char>) -> bool {
    contains_seq(lower_of(name), lower_of(query))
}

/// Indices of the first `n` catalog items that match the query, in catalog
/// order.
pub open spec fn search_prefix(query: Seq<char>, items: Seq<Item>, n: int) -> Seq<usize>
    decreases n,
{
    if n <= 0 {
        Seq::empty()
    } else {
        let prev = search_prefix(query, items, n - 1);
        if matches(query, items[n - 1].display_name@) {
            prev.push((n - 1) as usize)
        } else {
            prev
        }
    }
}

/// Indices of every catalog item that matches the query, in catalog order.
pub open spec fn search_spec(query: Seq<char>, items: Seq<Item>) -> Seq<usize> {
    search_prefix(query, items, items.len() as int)
}

fn chars_of(s: &str) -> (r: Vec<char>)
    ensures
        r@ == s@,
{
    let mut out: Vec<char> = Vec::new();
    for c in it: s.chars()
        invariant
            out@ == it.seq().take(it.index() as int),
    {
        out.push(c);
    }
    out
}

/// `needle` stands in `hay` at position `start`.
fn occurs_at(hay: &Vec<char>, needle: &Vec<char>, start: usize) -> (r: bool)
    requires
        start + needle@.len() <= hay@.len(),
    ensures
        r == (hay@.subrange(start as int, start + needle@.len()) == needle@),
{
    let hay_len = hay.len();
    let mut k: usize = 0;
    while k < needle.len()
        invariant
            start + needle@.len() <= hay@.len(),
            hay_len == hay@.len(),
            k <= needle@.len(),
            forall|j: int| 0 <= j < k ==> hay@[start + j] == needle@[j],
        decreases needle@.len() - k,
    {
        if hay[start + k] != needle[k] {
            assert(hay@.subrange(start as int, start + needle@.len())[k as int] != needle@[k as int]);
            return false;
        }
        k = k + 1;
    }
    assert(hay@.subrange(start as int, start + needle@.len()) =~= needle@);
    true
}

/// Whether `needle` occurs in `hay`. Given the lowercase forms of a name and
/// a query, this is exactly whether the query matches the name.
pub fn contains_folded(hay: &str, needle: &str) -> (r: bool)
    ensures
        r == contains_seq(hay@, needle@),
{
    let h = chars_of(hay);
    let n = chars_of(needle);
    if n.len() > h.len() {
        return false;
    }
    let last = h.len() - n.len();
    let mut i: usize = 0;
    loop
        invariant
            h@ == hay@,
            n@ == needle@,
            last == h@.len() - n@.len(),
            i <= last,
            forall|j: int| 0 <= j < i ==> #[trigger] h@.subrange(j, j + n@.len()) != n@,
        decreases last - i,
    {
        if occurs_at(&h, &n, i) {
            return true;
        }
        if i == last {
            return false;
        }
        i = i + 1;
    }
}

/// The indices of the catalog items whose display name contains the query,
/// ignoring case, in catalog order.
pub fn search_items(query: &str, items: &Vec<Item>) -> (r: Vec<usize>)
    ensures
        r@ == search_spec(query@, items@),
        forall|k: int| 0 <= k < r@.len() ==> (#[trigger] r@[k] as int) < items@.len(),
{
    let lower = lowercase(query);
    let mut found: Vec<usize> = Vec::new();
    let mut i: usize = 0;
    while i < items.len()
        invariant
            i <= items@.len(),
            lower@ == lower_of(query@),
            found@ == search_prefix(query@, items@, i as int),
            forall|k: int| 0 <= k < found@.len() ==> (#[trigger] found@[k] as int) < i,
        decreases items@.len() - i,
    {
        let name = lowercase(items[i].display_name.as_str());
        if contains_folded(name.as_str(), lower.as_str()) {
            found.push(i);
        }
        i = i + 1;
    }
    found
}

/// An index is found among the first `n` items exactly when it is one of them
/// and its item matches.
proof fn lemma_search_prefix_contains(query: Seq<char>, items: Seq<Item>, n: int, k: usize)
    requires
        0 <= n <= items.len(),
        items.len() <= usize::MAX,
    ensures
        search_prefix(query, items, n).contains(k) <==> (k < n && matches(
            query,
            items[k as int].display_name@,
        )),
    decreases n,
{
    if n > 0 {
        lemma_search_prefix_contains(query, items, n - 1, k);
        let prev = search_prefix(query, items, n - 1);
        if matches(query, items[n - 1].display_name@) {
            assert(prev.push((n - 1) as usize)[prev.len() as int] == (n - 1) as usize);
            if prev.contains(k) {
                let j = choose|j: int| 0 <= j < prev.len() && prev[j] == k;
                assert(prev.push((n - 1) as usize)[j] == k);
            }
            let pushed = prev.push((n - 1) as usize);
            if pushed.contains(k) && k != (n - 1) as usize {
                let j = choose|j: int| 0 <= j < pushed.len() && #[trigger] pushed[j] == k;
                assert(prev[j] == k);
            }
        }
    }
}

/// A run inside a run inside a sequence is a run of that sequence.
proof fn lemma_contains_trans(a: Seq<char>, b: Seq<char>, c: Seq<char>)
    requires
        contains_seq(a, b),
        contains_seq(b, c),
    ensures
        contains_seq(a, c),
{
    let i = choose|i: int| 0 <= i <= a.len() - b.len() && #[trigger] a.subrange(i, i + b.len()) == b;
    let j = choose|j: int| 0 <= j <= b.len() - c.len() && #[trigger] b.subrange(j, j + c.len()) == c;
    assert(a.subrange(i + j, i + j + c.len()) =~= c);
}

/// Searching ignores case: two queries with the same lowercase form find the
/// same items in the same order.
pub proof fn lemma_search_ignores_case(q1: Seq<char>, q2: Seq<char>, items: Seq<Item>)
    requires
        lower_of(q1) == lower_of(q2),
    ensures
        search_spec(q1, items) == search_spec(q2, items),
{
    lemma_search_same_prefix(q1, q2, items, items.len() as int);
}

proof fn lemma_search_same_prefix(q1: Seq<char>, q2: Seq<char>, items: Seq<Item>, n: int)
    requires
        lower_of(q1) == lower_of(q2),
    ensures
        search_prefix(q1, items, n) == search_prefix(q2, items, n),
    decreases n,
{
    if n > 0 {
        lemma_search_same_prefix(q1, q2, items, n - 1);
    }
}

/// A longer query never finds more: when the lowercase form of `narrow`
/// contains that of `wide`, every item that `narrow` finds, `wide` finds too.
pub proof fn lemma_search_narrows(wide: Seq<char>, narrow: Seq<char>, items: Seq<Item>)
    requires
        items.len() <= usize::MAX,
        contains_seq(lower_of(narrow), lower_of(wide)),
    ensures
        forall|k: usize| #[trigger]
            search_spec(narrow, items).contains(k) ==> search_spec(wide, items).contains(k),
{
    assert forall|k: usize| #[trigger]
        search_spec(narrow, items).contains(k) implies search_spec(wide, items).contains(k) by {
        lemma_search_prefix_contains(narrow, items, items.len() as int, k);
        lemma_search_prefix_contains(wide, items, items.len() as int, k);
        lemma_contains_trans(
            lower_of(items[k as int].display_name@),
            lower_of(narrow),
            lower_of(wide),
        );
    }
}

/// A query whose lowercase form is empty, such as the empty query, finds
/// every item of the catalog in catalog order, so its results hold those of
/// any other query.
pub proof fn lemma_blank_query_finds_all(blank: Seq<char>, query: Seq<char>, items: Seq<Item>)
    requires
        items.len() <= usize::MAX,
        lower_of(blank).len() == 0,
    ensures
        search_spec(blank, items) == Seq::new(items.len(), |i: int| i as usize),
        forall|k: usize| #[trigger]
            search_spec(query, items).contains(k) ==> search_spec(blank, items).contains(k),
{
    lemma_blank_prefix(blank, items, items.len() as int);
    assert forall|k: usize| #[trigger]
        search_spec(query, items).contains(k) implies search_spec(blank, items).contains(k) by {
        lemma_search_prefix_contains(query, items, items.len() as int, k);
        lemma_search_prefix_contains(blank, items, items.len() as int, k);
        let name = lower_of(items[k as int].display_name@);
        assert(name.subrange(0int, 0int + lower_of(blank).len()) =~= lower_of(blank));
    }
}

proof fn lemma_blank_prefix(blank: Seq<char>, items: Seq<Item>, n: int)
    requires
        0 <= n <= items.len(),
        items.len() <= usize::MAX,
        lower_of(blank).len() == 0,
    ensures
        search_prefix(blank, items, n) == Seq::new(n as nat, |i: int| i as usize),
    decreases n,
{
    if n > 0 {
        lemma_blank_prefix(blank, items, n - 1);
        let name = lower_of(items[n - 1].display_name@);
        assert(name.subrange(0int, 0int + lower_of(blank).len()) =~= lower_of(blank));
        assert(search_prefix(blank, items, n) =~= Seq::new(n as nat, |i: int| i as usize));
    }
}

} // verus!
