//! What a synchronization command asks for.

use crate::album::Image;
use crate::fetch::{fetch_run, fetch_start, fetched_images, law_fetch_run, range_len};
use crate::links::{gallery_address, page_suffix, parsed_url, split_page_suffix};
use crate::text::{
    decimal, is_word, law_decimal_round_trip, lemma_decimal_word, lemma_words_first,
    lemma_words_single, parse_usize, parsed_usize, split_whitespace, texts, words,
};
use vstd::prelude::*;

verus! {

/// The first and the last page of a range, as far as they are given.
pub type PageRange = (Option<usize>, Option<usize>);

/// A range with its ends in ascending order.
pub open spec fn ordered(range: PageRange) -> PageRange {
    if range.0 is Some && range.1 is Some && range.0->0 > range.1->0 {
        (range.1, range.0)
    } else {
        range
    }
}

/// The range that a command asks for: its words, the first of which is the
/// address, and the page number at the end of the address, if there is one. A
/// number behind the address is a single page, two are the ends of a range;
/// without them the page number of the address counts.
pub open spec fn range_view(args: Seq<Seq<char>>, suffix: Option<usize>) -> PageRange {
    if args.len() >= 3 {
        ordered((parsed_usize(args[1]), parsed_usize(args[2])))
    } else if args.len() == 2 && parsed_usize(args[1]) is Some {
        (parsed_usize(args[1]), parsed_usize(args[1]))
    } else {
        (suffix, suffix)
    }
}

/// Finds the range that a command asks for by its words and the page number at
/// the end of its address.
pub fn requested_range(args: &Vec<String>, suffix: Option<usize>) -> (r: PageRange)
    ensures
        r == range_view(texts(args@), suffix),
{
    let mut start_page = suffix;
    let mut end_page = suffix;
    if args.len() == 2 {
        let page = parse_usize(args[1].as_str());
        if page.is_some() {
            start_page = page;
            end_page = page;
        }
    } else if args.len() >= 3 {
        start_page = parse_usize(args[1].as_str());
        end_page = parse_usize(args[2].as_str());
    }
    if let (Some(s), Some(e)) = (start_page, end_page) {
        if s > e {
            start_page = Some(e);
            end_page = Some(s);
        }
    }
    (start_page, end_page)
}

/// The first word of a command, empty where there is none.
pub open spec fn first_word(args: Seq<Seq<char>>) -> Seq<char> {
    if args.len() > 0 {
        args[0]
    } else {
        Seq::empty()
    }
}

/// A gallery and a range of it.
pub struct SyncRequest {
    pub url: String,
    pub start: Option<usize>,
    pub end: Option<usize>,
}

/// Reads what stands behind a synchronization command.
pub fn parse_request(input: &str) -> (r: SyncRequest)
    ensures
        ({
            let raw = first_word(words(input@));
            let url = parsed_url(raw);
            &&& r.url@ == gallery_address(raw, url)
            &&& (r.start, r.end) == range_view(words(input@), page_suffix(url))
        }),
{
    let args = split_whitespace(input);
    let raw = if args.len() > 0 {
        args[0].clone()
    } else {
        String::new()
    };
    assert(raw@ =~= first_word(texts(args@)));
    let (url, suffix) = split_page_suffix(raw.as_str());
    let (start, end) = requested_range(&args, suffix);
    SyncRequest { url, start, end }
}

/// The largest distance between the ends of a range that is sent as images.
pub const MEDIA_GROUP_SPAN: usize = 5;

/// How a range is delivered.
#[derive(Clone, Copy, Debug, PartialEq, Eq, Structural)]
pub enum Delivery {
    /// As images in a message.
    Images { start: usize, end: usize },
    /// As pages.
    Pages { start: Option<usize>, end: Option<usize> },
}

/// How a range is delivered: a small one, both ends of which are given, as
/// images, any other as pages.
pub open spec fn delivery_view(range: PageRange) -> Delivery {
    if range.0 is Some && range.1 is Some && range.1->0 - range.0->0 <= MEDIA_GROUP_SPAN {
        Delivery::Images { start: range.0->0, end: range.1->0 }
    } else {
        Delivery::Pages { start: range.0, end: range.1 }
    }
}

/// Chooses how a range is delivered.
pub fn delivery(start: Option<usize>, end: Option<usize>) -> (r: Delivery)
    requires
        start is Some && end is Some ==> start->0 <= end->0,
    ensures
        r == delivery_view((start, end)),
{
    match (start, end) {
        (Some(s), Some(e)) => if e - s <= MEDIA_GROUP_SPAN {
            Delivery::Images { start: s, end: e }
        } else {
            Delivery::Pages { start, end }
        },
        _ => Delivery::Pages { start, end },
    }
}

/// A range both ends of which are given has them in ascending order.
pub proof fn law_range_ordered(args: Seq<Seq<char>>, suffix: Option<usize>)
    ensures
        ({
            let range = range_view(args, suffix);
            range.0 is Some && range.1 is Some ==> range.0->0 <= range.1->0
        }),
{
}

/// The order in which the ends of a range are given makes no difference.
pub proof fn law_ends_commute(
    url: Seq<char>,
    first: Seq<char>,
    second: Seq<char>,
    suffix: Option<usize>,
)
    requires
        parsed_usize(first) is Some,
        parsed_usize(second) is Some,
    ensures
        range_view(seq![url, first, second], suffix) == range_view(
            seq![url, second, first],
            suffix,
        ),
{
}

/// A page number behind the address asks for the same as one at its end.
pub proof fn law_single_page(url: Seq<char>, page: Seq<char>, suffix: Option<usize>)
    requires
        parsed_usize(page) is Some,
    ensures
        range_view(seq![url, page], suffix) == range_view(seq![url], parsed_usize(page)),
{
}

/// An address with two numbers behind it asks for the range between them.
pub proof fn law_range_command(url: Seq<char>, start: usize, end: usize, suffix: Option<usize>)
    requires
        is_word(url),
    ensures
        ({
            let input = url + seq![' '] + (decimal(start as nat) + seq![' '] + decimal(
                end as nat,
            ));
            &&& first_word(words(input)) == url
            &&& range_view(words(input), suffix) == (if start <= end {
                (Some(start), Some(end))
            } else {
                (Some(end), Some(start))
            })
        }),
{
    let first = decimal(start as nat);
    let second = decimal(end as nat);
    let tail = first + seq![' '] + second;
    lemma_decimal_word(start as nat);
    lemma_decimal_word(end as nat);
    lemma_words_first(url, tail);
    lemma_words_first(first, second);
    lemma_words_single(second);
    law_decimal_round_trip(start);
    law_decimal_round_trip(end);
    assert(words(url + seq![' '] + tail) =~= seq![url, first, second]);
}

/// An address with a number behind it asks for that page.
pub proof fn law_page_command(url: Seq<char>, page: usize, suffix: Option<usize>)
    requires
        is_word(url),
    ensures
        ({
            let input = url + seq![' '] + decimal(page as nat);
            &&& first_word(words(input)) == url
            &&& range_view(words(input), suffix) == (Some(page), Some(page))
        }),
{
    let digits = decimal(page as nat);
    lemma_decimal_word(page as nat);
    lemma_words_first(url, digits);
    lemma_words_single(digits);
    law_decimal_round_trip(page);
    assert(words(url + seq![' '] + digits) =~= seq![url, digits]);
}

/// An address alone asks for the page at its end, or for the whole gallery.
pub proof fn law_plain_command(url: Seq<char>, suffix: Option<usize>)
    requires
        is_word(url),
    ensures
        first_word(words(url)) == url,
        range_view(words(url), suffix) == (suffix, suffix),
{
    lemma_words_single(url);
}

/// A range that is delivered as images has at most six of them.
pub proof fn law_few_images<SE>(range: PageRange, pages: Seq<Result<Image, SE>>)
    requires
        delivery_view(range) is Images,
    ensures
        fetch_run(
            fetch_start(range.0->0 as nat, range.1->0 as nat),
            pages,
        ).images.len() <= MEDIA_GROUP_SPAN + 1,
{
    let start = range.0->0 as nat;
    let end = range.1->0 as nat;
    law_fetch_run(fetch_start(start, end), pages);
    let n = range_len(start, end, pages.len()) as int;
    lemma_fetched_len(pages.take(n));
}

proof fn lemma_fetched_len<SE>(pages: Seq<Result<Image, SE>>)
    ensures
        fetched_images(pages).len() <= pages.len(),
    decreases pages.len(),
{
    if pages.len() > 0 {
        lemma_fetched_len(pages.drop_last());
    }
}

/// A range with both ends given is delivered as images, with the same ends,
/// exactly where its last number exceeds its first by at most five. Any other
/// range is delivered as pages, with the same ends.
pub proof fn law_delivery(start: Option<usize>, end: Option<usize>)
    ensures
        match (start, end) {
            (Some(s), Some(e)) => if e - s <= 5 {
                delivery_view((start, end)) == (Delivery::Images { start: s, end: e })
            } else {
                delivery_view((start, end)) == (Delivery::Pages {
                    start: Some(s),
                    end: Some(e),
                })
            },
            _ => delivery_view((start, end)) == (Delivery::Pages { start, end }),
        },
{
}

/// How a range is delivered depends on its length alone: a range no longer than
/// one that is delivered as images is delivered as images too, wherever either
/// begins, and a single page always is.
pub proof fn law_delivery_by_length(s: usize, e: usize, t: usize, f: usize)
    requires
        s <= e,
        t <= f,
        e - s <= f - t,
    ensures
        delivery_view((Some(t), Some(f))) is Images ==> delivery_view((Some(s), Some(e))) is Images,
        delivery_view((Some(s), Some(e))) is Pages ==> delivery_view((Some(t), Some(f))) is Pages,
        delivery_view((Some(s), Some(s))) == (Delivery::Images { start: s, end: s }),
{
}

/// With two words or more behind the address, its own page number does not count:
/// the ends of the range are what the first two of these words denote, the
/// smaller first where both are numbers. Further words make no difference.
pub proof fn law_range_words(args: Seq<Seq<char>>, suffix: Option<usize>)
    requires
        args.len() >= 3,
    ensures
        ({
            let range = range_view(args, suffix);
            let a = parsed_usize(args[1]);
            let b = parsed_usize(args[2]);
            &&& a is None || b is None ==> range == (a, b)
            &&& a is Some && b is Some ==> range.0 is Some && range.1 is Some && range.0->0
                <= range.1->0
            &&& a is Some && b is Some ==> (range == (a, b) || range == (b, a))
            &&& range == range_view(args.take(3), None)
        }),
{
}

/// With one word behind the address, that word is the page where it is a number;
/// else, and without any word, the page number of the address counts.
pub proof fn law_page_words(args: Seq<Seq<char>>, suffix: Option<usize>)
    requires
        args.len() < 3,
    ensures
        args.len() < 2 ==> range_view(args, suffix) == (suffix, suffix),
        args.len() == 2 && parsed_usize(args[1]) is None ==> range_view(args, suffix) == (
            suffix,
            suffix,
        ),
        args.len() == 2 && parsed_usize(args[1]) is Some ==> range_view(args, suffix) == (
            parsed_usize(args[1]),
            parsed_usize(args[1]),
        ),
{
}

/// The address of a command is its first word, whatever stands behind it; a
/// command without a word has an empty one.
pub proof fn law_first_word(args: Seq<Seq<char>>)
    ensures
        args.len() > 0 ==> first_word(args) == args[0],
        args.len() == 0 ==> first_word(args).len() == 0,
{
}

} // verus!
