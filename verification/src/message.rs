//! Finding addresses in messages: plain text, links behind text, and the marked
//! parts of captions, which are counted in UTF-16 code units.

use crate::node::opt_text;
use crate::text::{chars_of, texts};
use vstd::prelude::*;

verus! {

/// How many code units a character takes.
pub open spec fn char_width(c: char) -> nat {
    if c as u32 >= 0x10000 {
        2
    } else {
        1
    }
}

/// The code units of a character.
pub open spec fn char_units(c: char) -> Seq<int> {
    let n = c as u32 as int;
    if n >= 0x10000 {
        seq![0xd800 + (n - 0x10000) / 0x400, 0xdc00 + (n - 0x10000) % 0x400]
    } else {
        seq![n]
    }
}

/// The code units of a text.
pub open spec fn utf16(s: Seq<char>) -> Seq<int>
    decreases s.len(),
{
    if s.len() == 0 {
        Seq::empty()
    } else {
        utf16(s.drop_last()) + char_units(s.last())
    }
}

/// At most `length` code units from `offset` on, as far as there are any.
pub open spec fn slice(units: Seq<int>, offset: nat, length: nat) -> Seq<int> {
    let first = if offset <= units.len() {
        offset
    } else {
        units.len()
    };
    let last = if first + length <= units.len() {
        first + length
    } else {
        units.len()
    };
    units.subrange(first as int, last as int)
}

/// The text that code units encode, if they encode one.
pub open spec fn decoded(units: Seq<int>) -> Option<Seq<char>> {
    if exists|s: Seq<char>| utf16(s) == units {
        Some(choose|s: Seq<char>| utf16(s) == units)
    } else {
        None
    }
}

/// The second half of a character that takes two code units.
pub open spec fn is_low(unit: int) -> bool {
    0xdc00 <= unit < 0xe000
}

/// The first half of a character that takes two code units.
pub open spec fn is_high(unit: int) -> bool {
    0xd800 <= unit < 0xdc00
}

proof fn lemma_char_units(c: char)
    ensures
        char_units(c).len() == char_width(c),
        char_width(c) == 2 ==> is_high(char_units(c)[0]) && is_low(char_units(c)[1]),
        char_width(c) == 1 ==> !is_high(char_units(c)[0]) && !is_low(char_units(c)[0]),
{
    let n = c as u32;
    assert(n <= 0x10ffff);
    assert(n < 0xd800 || n >= 0xe000);
}

proof fn lemma_char_units_injective(c: char, d: char)
    requires
        char_units(c) == char_units(d),
    ensures
        c == d,
{
    lemma_char_units(c);
    lemma_char_units(d);
    let x = char_units(c);
    let y = char_units(d);
    let m = c as u32 as int;
    let n = d as u32 as int;
    assert(x[0] == y[0]);
    if x.len() == 2 {
        assert(x[1] == y[1]);
        assert((m - 0x10000) / 0x400 == (n - 0x10000) / 0x400);
        assert((m - 0x10000) % 0x400 == (n - 0x10000) % 0x400);
    }
    assert(m == n);
}

proof fn lemma_utf16_add(a: Seq<char>, b: Seq<char>)
    ensures
        utf16(a + b) == utf16(a) + utf16(b),
    decreases b.len(),
{
    if b.len() == 0 {
        assert(a + b =~= a);
        assert(utf16(a) + utf16(b) =~= utf16(a));
    } else {
        assert((a + b).drop_last() =~= a + b.drop_last());
        lemma_utf16_add(a, b.drop_last());
        assert(utf16(a + b) =~= utf16(a) + utf16(b));
    }
}

proof fn lemma_utf16_single(c: char)
    ensures
        utf16(seq![c]) == char_units(c),
{
    let s = seq![c];
    assert(s.drop_last() =~= Seq::<char>::empty());
    assert(utf16(s.drop_last()) =~= Seq::<int>::empty());
    assert(utf16(s) =~= char_units(c));
}

/// No text begins with the second half of a character or ends with the first.
proof fn lemma_utf16_ends(s: Seq<char>)
    requires
        s.len() > 0,
    ensures
        utf16(s).len() > 0,
        !is_low(utf16(s)[0]),
        !is_high(utf16(s).last()),
{
    lemma_char_units(s[0]);
    lemma_char_units(s.last());
    assert(s =~= seq![s[0]] + s.skip(1));
    lemma_utf16_add(seq![s[0]], s.skip(1));
    lemma_utf16_single(s[0]);
}

/// Code units encode at most one text.
pub proof fn law_utf16_injective(a: Seq<char>, b: Seq<char>)
    requires
        utf16(a) == utf16(b),
    ensures
        a == b,
    decreases a.len(),
{
    if a.len() == 0 {
        if b.len() > 0 {
            lemma_utf16_ends(b);
        }
        assert(a =~= b);
    } else if b.len() == 0 {
        lemma_utf16_ends(a);
    } else {
        let units = utf16(a);
        let x = char_units(a.last());
        let y = char_units(b.last());
        lemma_char_units(a.last());
        lemma_char_units(b.last());
        assert(units.last() == x.last());
        assert(units.last() == y.last());
        assert(x.len() == y.len());
        let n = units.len() - x.len();
        assert(x =~= units.skip(n));
        assert(y =~= units.skip(n));
        assert(utf16(a.drop_last()) =~= units.take(n));
        assert(utf16(b.drop_last()) =~= units.take(n));
        law_utf16_injective(a.drop_last(), b.drop_last());
        lemma_char_units_injective(a.last(), b.last());
        assert(a =~= a.drop_last().push(a.last()));
        assert(b =~= b.drop_last().push(b.last()));
    }
}

/// Code units that encode a text are decoded to it.
pub proof fn law_decode_encoded(s: Seq<char>)
    ensures
        decoded(utf16(s)) == Some(s),
{
    let found = choose|t: Seq<char>| utf16(t) == utf16(s);
    law_utf16_injective(found, s);
}

fn width(c: char) -> (r: usize)
    ensures
        r == char_width(c),
{
    if c as u32 >= 0x10000 {
        2
    } else {
        1
    }
}

/// The part of a text that begins `offset` code units from its beginning and
/// takes `length` code units, as far as the text reaches; nothing where that
/// part begins or ends inside a character.
pub fn utf16_slice(raw: &str, offset: usize, length: usize) -> (r: Option<String>)
    ensures
        opt_text(r) == decoded(slice(utf16(raw@), offset as nat, length as nat)),
{
    let chars = chars_of(raw);
    let n: usize = chars.len();
    let ghost units = utf16(raw@);
    let ghost part = slice(units, offset as nat, length as nat);
    let mut skip_left: usize = offset;
    let mut i: usize = 0;
    assert(raw@.take(0) =~= Seq::<char>::empty());
    while i < n && width(chars[i]) <= skip_left
        invariant
            i <= n == chars@.len(),
            chars@ == raw@,
            skip_left <= offset,
            utf16(raw@.take(i as int)).len() == offset - skip_left,
        decreases n - i,
    {
        proof {
            lemma_char_units(raw@[i as int]);
            assert(raw@.take(i + 1).drop_last() =~= raw@.take(i as int));
        }
        skip_left -= width(chars[i]);
        i += 1;
    }
    proof {
        lemma_utf16_split(raw@, i as int);
        if i < n {
            lemma_char_units(raw@[i as int]);
            lemma_utf16_first(raw@.skip(i as int));
        } else {
            assert(raw@.skip(i as int) =~= Seq::<char>::empty());
            assert(part =~= utf16(Seq::<char>::empty()));
            law_decode_encoded(Seq::<char>::empty());
        }
    }
    if i == n {
        return Some(String::new());
    }
    if skip_left > 0 {
        if length == 0 {
            proof {
                assert(part =~= utf16(Seq::<char>::empty()));
                law_decode_encoded(Seq::<char>::empty());
            }
            return Some(String::new());
        }
        proof {
            assert(part.len() > 0);
            assert(part[0] == char_units(raw@[i as int])[1]);
            assert forall|s: Seq<char>| utf16(s) != part by {
                if utf16(s) == part {
                    lemma_utf16_ends(s);
                }
            }
        }
        return None;
    }
    let mut take_left: usize = length;
    let mut j: usize = i;
    assert(raw@.subrange(i as int, i as int) =~= Seq::<char>::empty());
    while j < n && width(chars[j]) <= take_left
        invariant
            i <= j <= n == chars@.len(),
            chars@ == raw@,
            take_left <= length,
            utf16(raw@.subrange(i as int, j as int)).len() == length - take_left,
        decreases n - j,
    {
        proof {
            lemma_char_units(raw@[j as int]);
            assert(raw@.subrange(i as int, j + 1).drop_last() =~= raw@.subrange(
                i as int,
                j as int,
            ));
        }
        take_left -= width(chars[j]);
        j += 1;
    }
    let ghost taken = raw@.subrange(i as int, j as int);
    proof {
        let rest = raw@.skip(i as int);
        lemma_utf16_split(rest, j - i);
        assert(rest.take(j - i) =~= taken);
        assert(rest.skip(j - i) =~= raw@.skip(j as int));
        if j < n {
            lemma_char_units(raw@[j as int]);
            lemma_utf16_first(raw@.skip(j as int));
        } else {
            assert(raw@.skip(j as int) =~= Seq::<char>::empty());
        }
        if j == n || take_left == 0 {
            assert(part =~= utf16(taken));
            law_decode_encoded(taken);
        } else {
            assert(part.last() == char_units(raw@[j as int])[0]);
            assert forall|s: Seq<char>| utf16(s) != part by {
                if utf16(s) == part {
                    lemma_utf16_ends(s);
                }
            }
        }
    }
    if j == n || take_left == 0 {
        Some(raw.substring_char(i, j).to_string())
    } else {
        None
    }
}

proof fn lemma_utf16_split(s: Seq<char>, n: int)
    requires
        0 <= n <= s.len(),
    ensures
        utf16(s) == utf16(s.take(n)) + utf16(s.skip(n)),
{
    assert(s =~= s.take(n) + s.skip(n));
    lemma_utf16_add(s.take(n), s.skip(n));
}

proof fn lemma_utf16_first(s: Seq<char>)
    requires
        s.len() > 0,
    ensures
        utf16(s) == char_units(s[0]) + utf16(s.skip(1)),
{
    lemma_utf16_split(s, 1);
    assert(s.take(1) =~= seq![s[0]]);
    lemma_utf16_single(s[0]);
}

/// What a marked part of a message is.
pub enum EntityKind {
    /// An address, written out.
    Url,
    /// A text that links to an address.
    TextLink { url: String },
    /// Something else.
    Other,
}

/// A marked part of a message.
pub struct Entity {
    pub kind: EntityKind,
    /// Where the part begins, in UTF-16 code units.
    pub offset: usize,
    /// How long the part is, in UTF-16 code units.
    pub length: usize,
}

/// The addresses that texts in a message link to, in order.
pub open spec fn link_targets(entities: Seq<Entity>) -> Seq<Seq<char>>
    decreases entities.len(),
{
    if entities.len() == 0 {
        Seq::empty()
    } else {
        let before = link_targets(entities.drop_last());
        match entities.last().kind {
            EntityKind::TextLink { url } => before.push(url@),
            _ => before,
        }
    }
}

/// Where to look for an address in a text message: the text itself first, then
/// what its parts link to.
pub open spec fn text_places(text: Option<Seq<char>>, entities: Seq<Entity>) -> Seq<Seq<char>> {
    (match text {
        Some(t) => seq![t],
        None => Seq::empty(),
    }) + link_targets(entities)
}

/// Lists where to look for an address in a text message.
pub fn text_candidates(text: &Option<String>, entities: &Vec<Entity>) -> (r: Vec<String>)
    ensures
        texts(r@) == text_places(opt_text(*text), entities@),
{
    let mut r: Vec<String> = Vec::new();
    if let Some(t) = text {
        r.push(t.clone());
    }
    let ghost first = texts(r@);
    let mut i: usize = 0;
    assert(entities@.take(0) =~= Seq::<Entity>::empty());
    assert(texts(r@) =~= first + link_targets(entities@.take(0)));
    while i < entities.len()
        invariant
            i <= entities@.len(),
            texts(r@) == first + link_targets(entities@.take(i as int)),
        decreases entities@.len() - i,
    {
        let ghost before = texts(r@);
        assert(entities@.take(i + 1).drop_last() =~= entities@.take(i as int));
        if let EntityKind::TextLink { url } = &entities[i].kind {
            r.push(url.clone());
            assert(texts(r@) =~= before.push(url@));
        }
        assert(texts(r@) =~= first + link_targets(entities@.take(i + 1)));
        i += 1;
    }
    assert(entities@.take(i as int) =~= entities@);
    assert(first =~= match opt_text(*text) {
        Some(t) => seq![t],
        None => Seq::empty(),
    });
    r
}

/// How far a caption could be looked through.
#[derive(Clone, Copy, Debug, PartialEq, Eq, Structural)]
pub enum ScanEnd {
    /// To its end.
    Complete,
    /// Up to a part that begins or ends inside a character.
    Undecodable,
    /// Up to an address that is marked in a caption that is not there.
    MissingCaption,
}

/// Where to look for an address in a caption, as plain values.
pub struct ScanView {
    pub places: Seq<Seq<char>>,
    pub end: ScanEnd,
}

/// Where to look for an address in the first `n` marked parts of a caption: the
/// addresses written out and those that texts link to, in order, up to the
/// first part that cannot be read.
pub open spec fn caption_places(
    caption: Option<Seq<char>>,
    entities: Seq<Entity>,
    n: nat,
) -> ScanView
    decreases n,
{
    if n == 0 {
        ScanView { places: Seq::empty(), end: ScanEnd::Complete }
    } else {
        let before = caption_places(caption, entities, (n - 1) as nat);
        let entity = entities[n - 1];
        if before.end != ScanEnd::Complete {
            before
        } else {
            match entity.kind {
                EntityKind::Other => before,
                EntityKind::TextLink { url } => ScanView {
                    places: before.places.push(url@),
                    ..before
                },
                EntityKind::Url => match caption {
                    None => ScanView { end: ScanEnd::MissingCaption, ..before },
                    Some(c) => match decoded(
                        slice(utf16(c), entity.offset as nat, entity.length as nat),
                    ) {
                        Some(part) => ScanView { places: before.places.push(part), ..before },
                        None => ScanView { end: ScanEnd::Undecodable, ..before },
                    },
                },
            }
        }
    }
}

/// Where to look for an address in a caption.
pub struct CaptionScan {
    pub candidates: Vec<String>,
    pub end: ScanEnd,
}

impl View for CaptionScan {
    type V = ScanView;

    open spec fn view(&self) -> ScanView {
        ScanView { places: texts(self.candidates@), end: self.end }
    }
}

proof fn lemma_scan_stopped(caption: Option<Seq<char>>, entities: Seq<Entity>, m: nat, n: nat)
    requires
        m <= n,
        caption_places(caption, entities, m).end != ScanEnd::Complete,
    ensures
        caption_places(caption, entities, n) == caption_places(caption, entities, m),
    decreases n,
{
    if m < n {
        lemma_scan_stopped(caption, entities, m, (n - 1) as nat);
    }
}

/// Lists where to look for an address in a caption.
pub fn caption_candidates(caption: &Option<String>, entities: &Vec<Entity>) -> (r: CaptionScan)
    ensures
        r@ == caption_places(opt_text(*caption), entities@, entities@.len()),
{
    let ghost text = opt_text(*caption);
    let mut candidates: Vec<String> = Vec::new();
    let mut i: usize = 0;
    assert(texts(candidates@) =~= caption_places(text, entities@, 0).places);
    while i < entities.len()
        invariant
            i <= entities@.len(),
            text == opt_text(*caption),
            caption_places(text, entities@, i as nat) == (ScanView {
                places: texts(candidates@),
                end: ScanEnd::Complete,
            }),
        decreases entities@.len() - i,
    {
        let ghost before = texts(candidates@);
        let ghost next = (i + 1) as nat;
        let end = match &entities[i].kind {
            EntityKind::Other => ScanEnd::Complete,
            EntityKind::TextLink { url } => {
                candidates.push(url.clone());
                assert(texts(candidates@) =~= before.push(url@));
                ScanEnd::Complete
            },
            EntityKind::Url => match caption {
                None => ScanEnd::MissingCaption,
                Some(raw) => match utf16_slice(
                    raw.as_str(),
                    entities[i].offset,
                    entities[i].length,
                ) {
                    Some(part) => {
                        candidates.push(part);
                        assert(texts(candidates@) =~= before.push(part@));
                        ScanEnd::Complete
                    },
                    None => ScanEnd::Undecodable,
                },
            },
        };
        assert(caption_places(text, entities@, next) == (ScanView {
            places: texts(candidates@),
            end,
        }));
        if end != ScanEnd::Complete {
            proof {
                lemma_scan_stopped(text, entities@, next, entities@.len());
            }
            return CaptionScan { candidates, end };
        }
        i += 1;
    }
    CaptionScan { candidates, end: ScanEnd::Complete }
}

/// The first of the addresses that were found.
pub open spec fn first_found(found: Seq<Option<String>>) -> Option<Seq<char>>
    decreases found.len(),
{
    if found.len() == 0 {
        None
    } else {
        match found[0] {
            Some(url) => Some(url@),
            None => first_found(found.skip(1)),
        }
    }
}

/// Picks the first of the addresses that were found.
pub fn first_match(found: &Vec<Option<String>>) -> (r: Option<String>)
    ensures
        opt_text(r) == first_found(found@),
{
    let mut i: usize = 0;
    assert(found@.skip(0) =~= found@);
    while i < found.len()
        invariant
            i <= found@.len(),
            first_found(found@.skip(i as int)) == first_found(found@),
        decreases found@.len() - i,
    {
        assert(found@.skip(i as int)[0] == found@[i as int]);
        assert(found@.skip(i as int).skip(1) =~= found@.skip(i + 1));
        if let Some(url) = &found[i] {
            return Some(url.clone());
        }
        i += 1;
    }
    None
}

/// The part of a text that is marked by where it begins and how long it is, in
/// UTF-16 code units, is exactly that part.
pub proof fn law_cut_marked(a: Seq<char>, u: Seq<char>, b: Seq<char>)
    ensures
        decoded(slice(utf16(a + u + b), utf16(a).len(), utf16(u).len())) == Some(u),
{
    lemma_utf16_add(a + u, b);
    lemma_utf16_add(a, u);
    assert(slice(utf16(a + u + b), utf16(a).len(), utf16(u).len()) =~= utf16(u));
    law_decode_encoded(u);
}

/// A mark that reaches behind the end of a text marks what there is.
pub proof fn law_cut_to_end(a: Seq<char>, u: Seq<char>, length: nat)
    requires
        length >= utf16(u).len(),
    ensures
        decoded(slice(utf16(a + u), utf16(a).len(), length)) == Some(u),
{
    lemma_utf16_add(a, u);
    assert(slice(utf16(a + u), utf16(a).len(), length) =~= utf16(u));
    law_decode_encoded(u);
}

/// A mark that begins or ends inside a character marks nothing that can be read.
pub proof fn law_cut_inside(a: Seq<char>, u: Seq<char>, c: char, b: Seq<char>, length: nat)
    requires
        c as u32 >= 0x10000,
    ensures
        length > 0 ==> decoded(
            slice(utf16(a + seq![c] + b), (utf16(a).len() + 1) as nat, length),
        ) is None,
        decoded(
            slice(
                utf16(a + (u + seq![c]) + b),
                utf16(a).len(),
                (utf16(u).len() + 1) as nat,
            ),
        ) is None,
{
    lemma_char_units(c);
    lemma_utf16_single(c);
    lemma_utf16_add(a + seq![c], b);
    lemma_utf16_add(a, seq![c]);
    lemma_utf16_add(a + (u + seq![c]), b);
    lemma_utf16_add(a, u + seq![c]);
    lemma_utf16_add(u, seq![c]);
    let begins = slice(utf16(a + seq![c] + b), (utf16(a).len() + 1) as nat, length);
    let ends = slice(
        utf16(a + (u + seq![c]) + b),
        utf16(a).len(),
        (utf16(u).len() + 1) as nat,
    );
    if length > 0 {
        assert(begins.len() > 0);
        assert(begins[0] == char_units(c)[1]);
    }
    assert(ends.len() == utf16(u).len() + 1);
    assert(ends.last() == char_units(c)[0]);
    assert forall|s: Seq<char>| #[trigger] utf16(s) == begins implies length == 0 by {
        if length > 0 {
            lemma_utf16_ends(s);
        }
    }
    assert forall|s: Seq<char>| #[trigger] utf16(s) != ends by {
        if utf16(s) == ends {
            lemma_utf16_ends(s);
        }
    }
}

/// A marked address in a caption is looked at, exactly as it is marked, behind
/// what is marked before it.
pub proof fn law_caption_address(
    a: Seq<char>,
    u: Seq<char>,
    b: Seq<char>,
    entities: Seq<Entity>,
    n: nat,
)
    requires
        n < entities.len(),
        entities[n as int].kind is Url,
        entities[n as int].offset == utf16(a).len(),
        entities[n as int].length == utf16(u).len(),
        caption_places(Some(a + u + b), entities, n).end is Complete,
    ensures
        caption_places(Some(a + u + b), entities, n + 1).places == caption_places(
            Some(a + u + b),
            entities,
            n,
        ).places.push(u),
        caption_places(Some(a + u + b), entities, n + 1).end is Complete,
{
    law_cut_marked(a, u, b);
}

/// Where the only marked part of a caption is an address, it is the only place to
/// look at.
pub proof fn law_caption_single_address(
    a: Seq<char>,
    u: Seq<char>,
    b: Seq<char>,
    entity: Entity,
)
    requires
        entity.kind is Url,
        entity.offset == utf16(a).len(),
        entity.length == utf16(u).len(),
    ensures
        caption_places(Some(a + u + b), seq![entity], 1).places == seq![u],
        caption_places(Some(a + u + b), seq![entity], 1).end is Complete,
{
    assert(caption_places(Some(a + u + b), seq![entity], 0).end is Complete);
    assert(caption_places(Some(a + u + b), seq![entity], 0).places =~= Seq::<Seq<char>>::empty());
    law_caption_address(a, u, b, seq![entity], 0);
    assert(Seq::<Seq<char>>::empty().push(u) =~= seq![u]);
}

/// In a caption, a text that links to an address is a place to look at, behind
/// those before it; a part of another kind is none. Neither needs a caption.
pub proof fn law_caption_links(caption: Option<Seq<char>>, entities: Seq<Entity>, n: nat)
    requires
        n < entities.len(),
        caption_places(caption, entities, n).end is Complete,
    ensures
        ({
            let before = caption_places(caption, entities, n);
            let after = caption_places(caption, entities, n + 1);
            match entities[n as int].kind {
                EntityKind::TextLink { url } => {
                    &&& after.places == before.places.push(url@)
                    &&& after.end is Complete
                },
                EntityKind::Other => {
                    &&& after.places == before.places
                    &&& after.end is Complete
                },
                EntityKind::Url => caption is None ==> {
                    &&& after.places == before.places
                    &&& after.end is MissingCaption
                },
            }
        }),
        caption_places(caption, entities, 0).places.len() == 0,
        caption_places(caption, entities, 0).end is Complete,
{
}

/// A marked part of a caption that begins or ends inside a character ends the
/// search: nothing behind it is a place to look at.
pub proof fn law_caption_stops(
    a: Seq<char>,
    c: char,
    b: Seq<char>,
    entities: Seq<Entity>,
    n: nat,
    later: nat,
)
    requires
        c as u32 >= 0x10000,
        n < later <= entities.len(),
        entities[n as int].kind is Url,
        entities[n as int].offset == utf16(a).len() + 1,
        entities[n as int].length > 0,
        caption_places(Some(a + seq![c] + b), entities, n).end is Complete,
    ensures
        ({
            let caption = Some(a + seq![c] + b);
            &&& caption_places(caption, entities, later).places == caption_places(
                caption,
                entities,
                n,
            ).places
            &&& caption_places(caption, entities, later).end is Undecodable
        }),
{
    law_cut_inside(a, Seq::empty(), c, b, entities[n as int].length as nat);
    assert(caption_places(Some(a + seq![c] + b), entities, n + 1).end is Undecodable);
    lemma_scan_stopped(Some(a + seq![c] + b), entities, n + 1, later);
}

/// In a text message the text comes first, then what its parts link to, in their
/// order; other parts are no places to look at.
pub proof fn law_text_places(text: Option<Seq<char>>, entities: Seq<Entity>, entity: Entity)
    ensures
        text is Some ==> text_places(text, Seq::<Entity>::empty()) == seq![text->0],
        text is None ==> text_places(text, Seq::<Entity>::empty()).len() == 0,
        entity.kind matches EntityKind::TextLink { url } ==> text_places(
            text,
            entities.push(entity),
        ) == text_places(text, entities).push(url@),
        !(entity.kind is TextLink) ==> text_places(text, entities.push(entity)) == text_places(
            text,
            entities,
        ),
{
    assert(entities.push(entity).drop_last() =~= entities);
    assert(link_targets(Seq::<Entity>::empty()) =~= Seq::<Seq<char>>::empty());
    if let Some(t) = text {
        assert(text_places(text, Seq::<Entity>::empty()) =~= seq![t]);
    }
    if let EntityKind::TextLink { url } = entity.kind {
        assert(text_places(text, entities.push(entity)) =~= text_places(text, entities).push(url@));
    }
}

/// The address that counts is the first that was found, wherever it stands; where
/// none was found, none counts.
pub proof fn law_first_found(found: Seq<Option<String>>, k: int)
    requires
        0 <= k <= found.len(),
        forall|i: int| 0 <= i < k ==> (#[trigger] found[i]) is None,
    ensures
        k < found.len() ==> (found[k] matches Some(url) ==> first_found(found) == Some(url@)),
        k == found.len() ==> first_found(found) is None,
    decreases found.len(),
{
    if k > 0 {
        assert(found[0] is None);
        assert forall|i: int| 0 <= i < k - 1 implies (#[trigger] found.skip(1)[i]) is None by {
            assert(found.skip(1)[i] == found[i + 1]);
        }
        law_first_found(found.skip(1), k - 1);
    }
}

/// A character takes two code units where its number has more than sixteen bits,
/// else one.
pub proof fn law_utf16_len(s: Seq<char>, c: char)
    ensures
        utf16(Seq::<char>::empty()).len() == 0,
        utf16(s.push(c)).len() == utf16(s).len() + (if c as u32 > 0xffff {
            2int
        } else {
            1int
        }),
{
    assert(s.push(c).drop_last() =~= s);
    lemma_char_units(c);
}

/// A mark behind the end of a text, and one without length, marks nothing.
pub proof fn law_cut_nothing(s: Seq<char>, offset: nat, length: nat)
    requires
        offset >= utf16(s).len() || length == 0,
    ensures
        decoded(slice(utf16(s), offset, length)) == Some(Seq::<char>::empty()),
{
    assert(slice(utf16(s), offset, length) =~= utf16(Seq::<char>::empty()));
    law_decode_encoded(Seq::<char>::empty());
}

} // verus!
