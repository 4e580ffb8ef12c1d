//! Reading the store list out of a rendered locator page.
//!
//! The page holds one or more list containers; each list item carries the
//! store's name and address in two marked spans. Parsing the markup and
//! matching selectors is the HTML library's work; what is read from the
//! matches, and when the page is refused, is decided here.
use vstd::prelude::*;
use crate::text::{trimmed, trim_text};
use crate::names::{normalize, normalize_name};
use scraper::{ElementRef, Html, Selector};

verus! {

/// What is wrong with a page that cannot be read as a store list.
#[derive(Debug, Clone, Copy, PartialEq, Eq, Structural)]
pub enum ParseError {
    /// A selector used to read the page did not parse.
    InvalidSelector,
    /// The page holds no list container.
    MissingList,
    /// A list item has no name element.
    MissingName,
    /// A list item has no address element.
    MissingAddress,
}

/// The texts found in one list item: those of its name elements and those of
/// its address elements, in document order.
pub type ItemTexts = (Vec<String>, Vec<String>);

/// What `ItemTexts` holds, as sequences of characters.
pub type ItemModel = (Seq<Seq<char>>, Seq<Seq<char>>);

/// A scraped store: its canonical name and its trimmed address.
pub type EntryModel = (Seq<char>, Seq<char>);

/// The texts that the HTML library finds in `html`: for each element matching
/// `list`, for each descendant matching `item`, the texts of the descendants
/// matching `name` and of those matching `address`. `None` when one of the
/// selectors does not parse.
pub uninterp spec fn store_list_texts_of(
    html: Seq<char>,
    list: Seq<char>,
    item: Seq<char>,
    name: Seq<char>,
    address: Seq<char>,
) -> Option<Seq<Seq<ItemModel>>>;

/// Relies on scraper's `Html::parse_document`, `Selector::parse`,
/// `Html::select`, `ElementRef::select` and `ElementRef::text`: the page is
/// parsed once, and the texts of the matching elements are handed back in
/// document order. The result depends on the five strings alone.
#[verifier::external_body]
fn select_store_texts(html: &str, list: &str, item: &str, name: &str, address: &str) -> (r:
    Option<Vec<Vec<ItemTexts>>>)
    ensures
        r.deep_view() == store_list_texts_of(html@, list@, item@, name@, address@),
{
    let (Ok(list), Ok(item), Ok(name), Ok(address)) =
        (Selector::parse(list), Selector::parse(item), Selector::parse(name), Selector::parse(address))
    else {
        return None;
    };
    let texts = |li: &ElementRef, sel: &Selector| -> Vec<String> {
        li.select(sel).map(|e| e.text().collect()).collect()
    };
    let document = Html::parse_document(html);
    Some(document.select(&list).map(|ul| {
        ul.select(&item).map(|li| (texts(&li, &name), texts(&li, &address))).collect()
    }).collect())
}

/// Why a list item cannot be read, if it cannot: the name is looked for first.
pub open spec fn item_fault(it: ItemModel) -> Option<ParseError> {
    if it.0.len() == 0 {
        Some(ParseError::MissingName)
    } else if it.1.len() == 0 {
        Some(ParseError::MissingAddress)
    } else {
        None
    }
}

/// The entry read from a list item: the canonical form of its first name text
/// and its first address text, trimmed.
pub open spec fn item_entry(it: ItemModel) -> EntryModel {
    (normalize(it.0[0]), trimmed(it.1[0]))
}

/// Reads one more list item onto what was read so far.
pub open spec fn read_item(acc: Result<Seq<EntryModel>, ParseError>, it: ItemModel) -> Result<
    Seq<EntryModel>,
    ParseError,
> {
    match acc {
        Err(e) => Err(e),
        Ok(v) => match item_fault(it) {
            Some(e) => Err(e),
            None => Ok(v.push(item_entry(it))),
        },
    }
}

/// Reads the items of one list, in order, onto what was read so far.
pub open spec fn read_items(acc: Result<Seq<EntryModel>, ParseError>, items: Seq<ItemModel>) -> Result<
    Seq<EntryModel>,
    ParseError,
>
    decreases items.len(),
{
    if items.len() == 0 {
        acc
    } else {
        read_item(read_items(acc, items.drop_last()), items.last())
    }
}

/// Reads the lists, in order.
pub open spec fn read_lists(lists: Seq<Seq<ItemModel>>) -> Result<Seq<EntryModel>, ParseError>
    decreases lists.len(),
{
    if lists.len() == 0 {
        Ok(seq![])
    } else {
        read_items(read_lists(lists.drop_last()), lists.last())
    }
}

/// The store list of a page whose lists hold the given item texts: refused
/// when there is no list, or at the first item without a name or an address.
pub open spec fn store_list_of(lists: Seq<Seq<ItemModel>>) -> Result<Seq<EntryModel>, ParseError> {
    if lists.len() == 0 {
        Err(ParseError::MissingList)
    } else {
        read_lists(lists)
    }
}

/// The store list of a page, from what the HTML library finds in it.
pub open spec fn store_list_of_page(texts: Option<Seq<Seq<ItemModel>>>) -> Result<
    Seq<EntryModel>,
    ParseError,
> {
    match texts {
        None => Err(ParseError::InvalidSelector),
        Some(lists) => store_list_of(lists),
    }
}

/// The view of an extraction result.
pub open spec fn entries_view(r: Result<Vec<(String, String)>, ParseError>) -> Result<
    Seq<EntryModel>,
    ParseError,
> {
    match r {
        Ok(v) => Ok(v.deep_view()),
        Err(e) => Err(e),
    }
}

proof fn lemma_read_items_err(e: ParseError, items: Seq<ItemModel>)
    ensures
        read_items(Err(e), items) == Err::<Seq<EntryModel>, ParseError>(e),
    decreases items.len(),
{
    if items.len() > 0 {
        lemma_read_items_err(e, items.drop_last());
    }
}

proof fn lemma_read_items_split(acc: Result<Seq<EntryModel>, ParseError>, items: Seq<ItemModel>, k: int)
    requires
        0 <= k <= items.len(),
    ensures
        read_items(acc, items) == read_items(read_items(acc, items.take(k)), items.skip(k)),
    decreases items.len() - k,
{
    if k == items.len() {
        assert(items.take(k) =~= items);
        assert(items.skip(k).len() == 0);
    } else {
        lemma_read_items_split(acc, items, k + 1);
        let mid = read_items(acc, items.take(k));
        assert(items.take(k + 1).drop_last() =~= items.take(k));
        assert(items.take(k + 1).last() == items.skip(k).first());
        // read_items(mid, skip(k)) == read_items(read_item(mid, skip(k)[0]), skip(k+1))
        lemma_read_items_front(mid, items.skip(k));
        assert(items.skip(k).drop_first() =~= items.skip(k + 1));
    }
}

proof fn lemma_read_items_front(acc: Result<Seq<EntryModel>, ParseError>, items: Seq<ItemModel>)
    requires
        items.len() > 0,
    ensures
        read_items(acc, items) == read_items(read_item(acc, items.first()), items.drop_first()),
    decreases items.len(),
{
    if items.len() == 1 {
        assert(items.drop_last().len() == 0);
        assert(items.drop_first().len() == 0);
    } else {
        lemma_read_items_front(acc, items.drop_last());
        assert(items.drop_last().drop_first() =~= items.drop_first().drop_last());
        assert(items.drop_last().first() == items.first());
    }
}

proof fn lemma_read_lists_err(lists: Seq<Seq<ItemModel>>, i: int, e: ParseError)
    requires
        0 <= i <= lists.len(),
        read_lists(lists.take(i)) == Err::<Seq<EntryModel>, ParseError>(e),
    ensures
        read_lists(lists) == Err::<Seq<EntryModel>, ParseError>(e),
    decreases lists.len() - i,
{
    if i == lists.len() {
        assert(lists.take(i) =~= lists);
    } else {
        assert(lists.take(i + 1).drop_last() =~= lists.take(i));
        lemma_read_items_err(e, lists[i]);
        lemma_read_lists_err(lists, i + 1, e);
    }
}

/// The store list read from the item texts of a page's lists: in document
/// order, each entry holds the canonical form of the item's first name text and
/// its first address text, trimmed. Refused when there is no list
/// (`MissingList`), or at the first item that lacks a name (`MissingName`) or,
/// having one, an address (`MissingAddress`).
pub fn store_entries(lists: &Vec<Vec<ItemTexts>>) -> (r: Result<Vec<(String, String)>, ParseError>)
    ensures
        entries_view(r) == store_list_of(lists.deep_view()),
{
    let ghost model = lists.deep_view();
    if lists.len() == 0 {
        return Err(ParseError::MissingList);
    }
    let mut out: Vec<(String, String)> = Vec::new();
    let mut i: usize = 0;
    assert(model.take(0) =~= Seq::<Seq<ItemModel>>::empty());
    assert(out.deep_view() =~= Seq::<EntryModel>::empty());
    while i < lists.len()
        invariant
            i <= lists@.len(),
            model == lists.deep_view(),
            model.len() == lists@.len(),
            read_lists(model.take(i as int)) == Ok::<Seq<EntryModel>, ParseError>(out.deep_view()),
        decreases lists@.len() - i,
    {
        let items = &lists[i];
        let ghost before = read_lists(model.take(i as int));
        assert(model[i as int] == items.deep_view());
        let mut j: usize = 0;
        assert(model[i as int].take(0).len() == 0);
        while j < items.len()
            invariant
                i < lists@.len(),
                j <= items@.len(),
                model == lists.deep_view(),
                model.len() == lists@.len(),
                *items == lists@[i as int],
                model[i as int] == items.deep_view(),
                before == read_lists(model.take(i as int)),
                read_items(before, model[i as int].take(j as int)) == Ok::<
                    Seq<EntryModel>,
                    ParseError,
                >(out.deep_view()),
            decreases items@.len() - j,
        {
            let it = &items[j];
            let ghost itm = model[i as int][j as int];
            assert(itm == it.deep_view());
            assert(model[i as int].take(j as int + 1).drop_last() =~= model[i as int].take(j as int));
            assert(model[i as int].take(j as int + 1).last() == itm);
            if it.0.len() == 0 {
                proof {
                    lemma_read_items_split(before, model[i as int], j as int + 1);
                    lemma_read_items_err(ParseError::MissingName, model[i as int].skip(j as int + 1));
                    assert(model.take(i as int + 1).drop_last() =~= model.take(i as int));
                    lemma_read_lists_err(model, i as int + 1, ParseError::MissingName);
                }
                return Err(ParseError::MissingName);
            }
            if it.1.len() == 0 {
                proof {
                    lemma_read_items_split(before, model[i as int], j as int + 1);
                    lemma_read_items_err(ParseError::MissingAddress, model[i as int].skip(j as int + 1));
                    assert(model.take(i as int + 1).drop_last() =~= model.take(i as int));
                    lemma_read_lists_err(model, i as int + 1, ParseError::MissingAddress);
                }
                return Err(ParseError::MissingAddress);
            }
            let name = normalize_name(it.0[0].as_str());
            let address = trim_text(it.1[0].as_str());
            let ghost prev = out.deep_view();
            out.push((name, address));
            assert(out.deep_view() =~= prev.push(item_entry(itm)));
            j = j + 1;
        }
        assert(model[i as int].take(j as int) =~= model[i as int]);
        assert(model.take(i as int + 1).drop_last() =~= model.take(i as int));
        i = i + 1;
    }
    assert(model.take(i as int) =~= model);
    Ok(out)
}

/// Reads the store list out of a rendered locator page: every `li` under an
/// element of class `store_list`, with the text of its `span.store_name` and of
/// its `span.store_address`.
pub fn parse_all_store_list(html: &str) -> (r: Result<Vec<(String, String)>, ParseError>)
    ensures
        entries_view(r) == store_list_of_page(
            store_list_texts_of(
                html@,
                ".store_list"@,
                "li"@,
                "span.store_name"@,
                "span.store_address"@,
            ),
        ),
{
    match select_store_texts(html, ".store_list", "li", "span.store_name", "span.store_address") {
        None => Err(ParseError::InvalidSelector),
        Some(lists) => store_entries(&lists),
    }
}

} // verus!
