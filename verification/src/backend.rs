//! Card readers.

use crate::bytes::{contains_bytes, occurs_in};
use crate::transport::CardTransport;
use vstd::prelude::*;
use vstd::string::*;
use vstd::utf8::encode_utf8;

verus! {

/// Name of a reader.
#[derive(Debug, PartialEq, Eq)]
pub struct ReaderId(String);

impl View for ReaderId {
    type V = Seq<char>;

    closed spec fn view(&self) -> Seq<char> {
        self.0@
    }
}

impl ReaderId {
    /// Wrap a reader name.
    pub fn new(name: String) -> (r: Self)
        ensures
            r@ == name@,
    {
        ReaderId(name)
    }

    /// Borrow the name.
    pub fn as_str(&self) -> (r: &str)
        ensures
            r@ == self@,
    {
        self.0.as_str()
    }
}

impl Clone for ReaderId {
    fn clone(&self) -> (r: Self)
        ensures
            r@ == self@,
    {
        ReaderId(self.0.as_str().to_owned())
    }
}

/// A reader and whether a card is in it.
#[derive(Debug)]
pub struct ReaderInfo {
    /// The reader.
    pub id: ReaderId,
    /// A card is present.
    pub card_present: bool,
}

/// What a reader list says of one reader.
#[verifier::ext_equal]
pub struct ReaderView {
    pub name: Seq<char>,
    pub card_present: bool,
}

impl View for ReaderInfo {
    type V = ReaderView;

    open spec fn view(&self) -> ReaderView {
        ReaderView { name: self.id@, card_present: self.card_present }
    }
}

impl Clone for ReaderInfo {
    fn clone(&self) -> (r: Self)
        ensures
            r@ == self@,
    {
        ReaderInfo { id: self.id.clone(), card_present: self.card_present }
    }
}

/// Part of a reader name that a caller asks for.
#[derive(Debug, PartialEq, Eq)]
pub struct ReaderFilter(String);

impl View for ReaderFilter {
    type V = Seq<char>;

    closed spec fn view(&self) -> Seq<char> {
        self.0@
    }
}

/// `part` occurs in `name`.
pub open spec fn name_matches(name: Seq<char>, part: Seq<char>) -> bool {
    occurs_in(encode_utf8(part), encode_utf8(name))
}

impl ReaderFilter {
    /// Wrap a part of a reader name.
    pub fn new(part: &str) -> (r: Self)
        ensures
            r@ == part@,
    {
        ReaderFilter(part.to_owned())
    }

    /// Borrow the part.
    pub fn as_str(&self) -> (r: &str)
        ensures
            r@ == self@,
    {
        self.0.as_str()
    }

    /// Whether the part occurs in a reader name.
    pub fn matches_reader(&self, reader: &ReaderId) -> (r: bool)
        ensures
            r == name_matches(reader@, self@),
    {
        contains_bytes(reader.as_str().as_bytes(), self.0.as_str().as_bytes())
    }
}

/// What a reader is opened for.
#[derive(Debug, Clone, Copy, PartialEq, Eq, Structural)]
pub enum ReaderAccessCap {
    /// Reading public files.
    Read,
}

/// Why no reader was picked.
#[derive(Debug, PartialEq, Eq)]
pub enum ReaderPickError {
    /// There is no reader.
    NoReaders,
    /// No reader holds a card.
    NoCardPresent,
    /// None of the cards is a FINEID card.
    NoFineidCard {
        /// The readers with a card.
        available: Vec<String>,
    },
    /// No candidate matches the filter.
    NoMatchingReader {
        /// The filter.
        filter: String,
        /// The candidates.
        available: Vec<String>,
    },
    /// Several candidates match the filter.
    AmbiguousFilter {
        /// The filter.
        filter: String,
        /// The candidates that match.
        matched: Vec<String>,
    },
    /// There are several candidates and no filter.
    MultipleReadersNoFilter {
        /// The candidates.
        available: Vec<String>,
    },
}

/// What a pick error says.
pub enum PickErrorView {
    NoReaders,
    NoCardPresent,
    NoFineidCard(Seq<Seq<char>>),
    NoMatchingReader(Seq<char>, Seq<Seq<char>>),
    AmbiguousFilter(Seq<char>, Seq<Seq<char>>),
    MultipleReadersNoFilter(Seq<Seq<char>>),
}

/// The views of texts.
pub open spec fn text_views(texts: Seq<String>) -> Seq<Seq<char>> {
    Seq::new(texts.len(), |i: int| texts[i]@)
}

impl View for ReaderPickError {
    type V = PickErrorView;

    open spec fn view(&self) -> PickErrorView {
        match self {
            ReaderPickError::NoReaders => PickErrorView::NoReaders,
            ReaderPickError::NoCardPresent => PickErrorView::NoCardPresent,
            ReaderPickError::NoFineidCard { available } => PickErrorView::NoFineidCard(
                text_views(available@),
            ),
            ReaderPickError::NoMatchingReader { filter, available } => {
                PickErrorView::NoMatchingReader(filter@, text_views(available@))
            },
            ReaderPickError::AmbiguousFilter { filter, matched } => PickErrorView::AmbiguousFilter(
                filter@,
                text_views(matched@),
            ),
            ReaderPickError::MultipleReadersNoFilter { available } => {
                PickErrorView::MultipleReadersNoFilter(text_views(available@))
            },
        }
    }
}

/// Access to card readers. Nothing is taken for granted about the answers.
pub trait ReaderBackend {
    /// An open reader.
    type Transport: CardTransport;

    /// Why the backend failed.
    type Error;

    /// List the readers.
    fn enumerate(&self) -> Result<Vec<ReaderInfo>, Self::Error>;

    /// Open a reader for exclusive use.
    fn open_exclusive(&self, reader: &ReaderId, access: ReaderAccessCap) -> Result<
        Self::Transport,
        Self::Error,
    >;
}

/// The views of reader names.
pub open spec fn id_views(ids: Seq<ReaderId>) -> Seq<Seq<char>> {
    Seq::new(ids.len(), |i: int| ids[i]@)
}

/// The views of a reader list.
pub open spec fn reader_views(readers: Seq<ReaderInfo>) -> Seq<ReaderView> {
    Seq::new(readers.len(), |i: int| readers[i]@)
}

/// A reader name passes an optional filter.
pub open spec fn passes(name: Seq<char>, filter: Option<Seq<char>>) -> bool {
    match filter {
        Some(part) => name_matches(name, part),
        None => true,
    }
}

/// The view of an optional filter.
pub open spec fn filter_view(filter: Option<&ReaderFilter>) -> Option<Seq<char>> {
    match filter {
        Some(f) => Some(f@),
        None => None,
    }
}

/// Whether a reader name passes an optional filter.
pub fn reader_passes(reader: &ReaderId, filter: Option<&ReaderFilter>) -> (r: bool)
    ensures
        r == passes(reader@, filter_view(filter)),
{
    match filter {
        Some(f) => f.matches_reader(reader),
        None => true,
    }
}

/// The positions of the names that pass the filter, in order.
pub open spec fn matching(names: Seq<Seq<char>>, filter: Option<Seq<char>>) -> Seq<int>
    decreases names.len(),
{
    if names.len() == 0 {
        Seq::empty()
    } else {
        let before = matching(names.drop_last(), filter);
        if passes(names.last(), filter) {
            before.push(names.len() - 1)
        } else {
            before
        }
    }
}

/// The names at positions.
pub open spec fn names_at(names: Seq<Seq<char>>, positions: Seq<int>) -> Seq<Seq<char>> {
    Seq::new(positions.len(), |i: int| names[positions[i]])
}

/// Which of the candidates is picked: the one that passes the filter, when there is
/// exactly one.
pub open spec fn resolution(names: Seq<Seq<char>>, filter: Option<Seq<char>>) -> Result<
    int,
    PickErrorView,
> {
    let hits = matching(names, filter);
    if hits.len() == 1 {
        Ok(hits[0])
    } else {
        match filter {
            Some(part) => if hits.len() == 0 {
                Err(PickErrorView::NoMatchingReader(part, names))
            } else {
                Err(PickErrorView::AmbiguousFilter(part, names_at(names, hits)))
            },
            None => Err(PickErrorView::MultipleReadersNoFilter(names_at(names, hits))),
        }
    }
}

/// The names of readers.
pub fn reader_names(ids: &Vec<ReaderId>) -> (r: Vec<String>)
    ensures
        text_views(r@) == id_views(ids@),
{
    let mut out: Vec<String> = Vec::new();
    let mut i: usize = 0;
    while i < ids.len()
        invariant
            i <= ids@.len(),
            out@.len() == i,
            forall|j: int| 0 <= j < i ==> (#[trigger] out@[j])@ == ids@[j]@,
        decreases ids@.len() - i,
    {
        out.push(ids[i].as_str().to_owned());
        i += 1;
    }
    assert(text_views(out@) =~= id_views(ids@));
    out
}

fn names_of_positions(ids: &Vec<ReaderId>, positions: &Vec<usize>) -> (r: Vec<String>)
    requires
        forall|j: int| 0 <= j < positions@.len() ==> (#[trigger] positions@[j]) < ids@.len(),
    ensures
        text_views(r@) == names_at(
            id_views(ids@),
            Seq::new(positions@.len(), |j: int| positions@[j] as int),
        ),
{
    let mut out: Vec<String> = Vec::new();
    let mut i: usize = 0;
    while i < positions.len()
        invariant
            i <= positions@.len(),
            forall|j: int| 0 <= j < positions@.len() ==> (#[trigger] positions@[j]) < ids@.len(),
            out@.len() == i,
            forall|j: int| 0 <= j < i ==> (#[trigger] out@[j])@ == ids@[positions@[j] as int]@,
        decreases positions@.len() - i,
    {
        let at: usize = positions[i];
        out.push(ids[at].as_str().to_owned());
        i += 1;
    }
    assert(text_views(out@) =~= names_at(
        id_views(ids@),
        Seq::new(positions@.len(), |j: int| positions@[j] as int),
    ));
    out
}

/// The view of a resolution.
pub open spec fn resolution_view(r: Result<usize, ReaderPickError>) -> Result<int, PickErrorView> {
    match r {
        Ok(i) => Ok(i as int),
        Err(e) => Err(e@),
    }
}

/// Pick the one candidate that passes the filter.
pub fn resolve_reader(candidates: &Vec<ReaderId>, filter: Option<&ReaderFilter>) -> (r: Result<
    usize,
    ReaderPickError,
>)
    ensures
        resolution_view(r) == resolution(id_views(candidates@), filter_view(filter)),
        r matches Ok(i) ==> i < candidates@.len(),
{
    let ghost names = id_views(candidates@);
    let ghost f = filter_view(filter);
    let mut hits: Vec<usize> = Vec::new();
    let mut i: usize = 0;
    assert(names.take(0) =~= Seq::empty());
    assert(Seq::new(hits@.len(), |j: int| hits@[j] as int) =~= Seq::empty());
    while i < candidates.len()
        invariant
            i <= candidates@.len(),
            names == id_views(candidates@),
            f == filter_view(filter),
            Seq::new(hits@.len(), |j: int| hits@[j] as int) == matching(names.take(i as int), f),
            forall|j: int| 0 <= j < hits@.len() ==> (#[trigger] hits@[j]) < candidates@.len(),
        decreases candidates@.len() - i,
    {
        let ghost before = hits@;
        proof {
            assert(names.take(i + 1).drop_last() =~= names.take(i as int));
            assert(names.take(i + 1).last() == candidates@[i as int]@);
        }
        if reader_passes(&candidates[i], filter) {
            hits.push(i);
            assert(Seq::new(hits@.len(), |j: int| hits@[j] as int) =~= Seq::new(
                before.len(),
                |j: int| before[j] as int,
            ).push(i as int));
        }
        i += 1;
    }
    assert(names.take(i as int) =~= names);
    let ghost positions = Seq::new(hits@.len(), |j: int| hits@[j] as int);
    if hits.len() == 1 {
        assert(positions[0] == hits@[0]);
        return Ok(hits[0]);
    }
    match filter {
        Some(part) => if hits.len() == 0 {
            Err(
                ReaderPickError::NoMatchingReader {
                    filter: part.as_str().to_owned(),
                    available: reader_names(candidates),
                },
            )
        } else {
            Err(
                ReaderPickError::AmbiguousFilter {
                    filter: part.as_str().to_owned(),
                    matched: names_of_positions(candidates, &hits),
                },
            )
        },
        None => Err(
            ReaderPickError::MultipleReadersNoFilter {
                available: names_of_positions(candidates, &hits),
            },
        ),
    }
}

proof fn lemma_matching(names: Seq<Seq<char>>, filter: Option<Seq<char>>)
    ensures
        ({
            let hits = matching(names, filter);
            &&& forall|k: int|
                0 <= k < hits.len() ==> 0 <= #[trigger] hits[k] < names.len() && passes(
                    names[hits[k]],
                    filter,
                )
            &&& forall|i: int|
                0 <= i < names.len() && passes(#[trigger] names[i], filter) ==> hits.contains(i)
        }),
    decreases names.len(),
{
    if names.len() > 0 {
        let front = names.drop_last();
        lemma_matching(front, filter);
        let before = matching(front, filter);
        let hits = matching(names, filter);
        assert forall|i: int| 0 <= i < names.len() && passes(
            #[trigger] names[i],
            filter,
        ) implies hits.contains(i) by {
            if i < front.len() {
                assert(front[i] == names[i]);
                assert(before.contains(i));
                let k = choose|k: int| 0 <= k < before.len() && before[k] == i;
                assert(hits[k] == i);
            } else {
                assert(hits[hits.len() - 1] == i);
            }
        }
    }
}

/// A pick is never a guess: the picked candidate passes the filter and no other one
/// does.
pub proof fn law_pick_is_unique(names: Seq<Seq<char>>, filter: Option<Seq<char>>)
    ensures
        resolution(names, filter) matches Ok(i) ==> 0 <= i < names.len() && passes(
            names[i],
            filter,
        ) && forall|j: int| 0 <= j < names.len() && passes(#[trigger] names[j], filter) ==> j == i,
{
    lemma_matching(names, filter);
    if resolution(names, filter) is Ok {
        let i = resolution(names, filter)->Ok_0;
        let hits = matching(names, filter);
        assert(hits[0] == i);
        assert forall|j: int| 0 <= j < names.len() && passes(
            #[trigger] names[j],
            filter,
        ) implies j == i by {
            assert(hits.contains(j));
        }
    }
}

/// The names that pass the filter, in order.
pub open spec fn passing(names: Seq<Seq<char>>, filter: Option<Seq<char>>) -> Seq<Seq<char>>
    decreases names.len(),
{
    if names.len() == 0 {
        Seq::empty()
    } else {
        let before = passing(names.drop_last(), filter);
        if passes(names.last(), filter) {
            before.push(names.last())
        } else {
            before
        }
    }
}

/// The names at the matching positions are those that pass the filter.
pub proof fn lemma_passing(names: Seq<Seq<char>>, filter: Option<Seq<char>>)
    ensures
        names_at(names, matching(names, filter)) == passing(names, filter),
        matching(names, filter).len() == passing(names, filter).len(),
    decreases names.len(),
{
    if names.len() > 0 {
        let front = names.drop_last();
        lemma_passing(front, filter);
        lemma_matching(front, filter);
        let before = matching(front, filter);
        assert forall|k: int| 0 <= k < before.len() implies names[#[trigger] before[k]]
            == front[before[k]] by {
            assert(0 <= before[k] < front.len());
        }
        assert(names_at(names, before) =~= names_at(front, before));
        assert(names_at(names, matching(names, filter)) =~= passing(names, filter));
    } else {
        assert(names_at(names, matching(names, filter)) =~= passing(names, filter));
    }
}

proof fn lemma_matching_ascends(names: Seq<Seq<char>>, filter: Option<Seq<char>>)
    ensures
        forall|a: int, b: int|
            0 <= a < b < matching(names, filter).len() ==> #[trigger] matching(names, filter)[a]
                < #[trigger] matching(names, filter)[b],
        matching(names, filter).len() <= names.len(),
        filter is None ==> matching(names, filter).len() == names.len(),
    decreases names.len(),
{
    if names.len() > 0 {
        let front = names.drop_last();
        lemma_matching_ascends(front, filter);
        lemma_matching(front, filter);
        let hits = matching(names, filter);
        let before = matching(front, filter);
        assert forall|a: int, b: int|
            0 <= a < b < hits.len() implies #[trigger] hits[a] < #[trigger] hits[b] by {
            assert(hits[a] == before[a]);
            if b < before.len() {
                assert(hits[b] == before[b]);
            }
        }
    }
}

/// The one candidate that passes the filter is picked, wherever it stands.
pub proof fn law_single_match_is_picked(names: Seq<Seq<char>>, filter: Option<Seq<char>>, i: int)
    requires
        0 <= i < names.len(),
        passes(names[i], filter),
        forall|j: int| 0 <= j < names.len() && passes(#[trigger] names[j], filter) ==> j == i,
    ensures
        resolution(names, filter) == Ok::<int, PickErrorView>(i),
{
    lemma_matching(names, filter);
    lemma_matching_ascends(names, filter);
    let hits = matching(names, filter);
    assert(hits.contains(i));
    if hits.len() > 1 {
        assert(hits[0] < hits[1]);
    }
    assert(hits[0] == i);
}

/// Without exactly one candidate that passes there is an error: no candidate passes and the
/// filter is named with all of them, or several do and it is named with those; without a
/// filter all of them are named.
pub proof fn law_no_pick_without_one_match(names: Seq<Seq<char>>, filter: Option<Seq<char>>)
    ensures
        filter matches Some(part) ==> {
            &&& (forall|j: int| 0 <= j < names.len() ==> !passes(#[trigger] names[j], filter))
                ==> resolution(names, filter) == Err::<int, PickErrorView>(
                PickErrorView::NoMatchingReader(part, names),
            )
            &&& (exists|a: int, b: int|
                0 <= a < b < names.len() && passes(#[trigger] names[a], filter) && passes(
                    #[trigger] names[b],
                    filter,
                )) ==> resolution(names, filter) == Err::<int, PickErrorView>(
                PickErrorView::AmbiguousFilter(part, passing(names, filter)),
            )
        },
        filter is None && names.len() != 1 ==> resolution(names, filter) == Err::<
            int,
            PickErrorView,
        >(PickErrorView::MultipleReadersNoFilter(names)),
        filter is None && names.len() == 1 ==> resolution(names, filter) == Ok::<
            int,
            PickErrorView,
        >(0),
{
    lemma_matching(names, filter);
    lemma_matching_ascends(names, filter);
    lemma_passing(names, filter);
    let hits = matching(names, filter);
    if exists|a: int, b: int|
        0 <= a < b < names.len() && passes(#[trigger] names[a], filter) && passes(
            #[trigger] names[b],
            filter,
        ) {
        let (a, b): (int, int) = choose|a: int, b: int|
            0 <= a < b < names.len() && passes(#[trigger] names[a], filter) && passes(
                #[trigger] names[b],
                filter,
            );
        assert(hits.contains(a) && hits.contains(b));
    }
    if filter is Some && forall|j: int|
        0 <= j < names.len() ==> !passes(#[trigger] names[j], filter) {
        if hits.len() > 0 {
            assert(passes(names[hits[0]], filter));
        }
    }
    if filter is None {
        lemma_all_pass(names);
        assert(passing(names, filter) =~= names);
        if names.len() == 1 {
            assert(hits[0] == 0);
        }
    }
}

proof fn lemma_all_pass(names: Seq<Seq<char>>)
    ensures
        passing(names, None) == names,
    decreases names.len(),
{
    if names.len() > 0 {
        lemma_all_pass(names.drop_last());
        assert(names.drop_last().push(names.last()) =~= names);
    } else {
        assert(passing(names, None) =~= names);
    }
}

/// A reader passes a filter exactly if its name holds the filter's text, with anything in
/// front and behind.
pub proof fn law_filter_is_part_of_the_name(name: Seq<char>, part: Seq<char>)
    ensures
        passes(name, Some(part)) <==> exists|front: Seq<u8>, rest: Seq<u8>|
            encode_utf8(name) == #[trigger] (front + encode_utf8(part) + rest),
        passes(name, None),
{
    let hay = encode_utf8(name);
    let needle = encode_utf8(part);
    if passes(name, Some(part)) {
        let i = choose|i: int|
            #![trigger hay.subrange(i, i + needle.len())]
            0 <= i && i + needle.len() <= hay.len() && hay.subrange(i, i + needle.len()) == needle;
        let front = hay.take(i);
        let rest = hay.skip(i + needle.len());
        assert(hay.take(i + needle.len()) =~= front + needle);
        assert(hay =~= front + needle + rest);
    }
    if exists|front: Seq<u8>, rest: Seq<u8>| hay == #[trigger] (front + needle + rest) {
        let (front, rest): (Seq<u8>, Seq<u8>) = choose|front: Seq<u8>, rest: Seq<u8>|
            hay == #[trigger] (front + needle + rest);
        let i = front.len() as int;
        assert(hay.subrange(i, i + needle.len()) =~= needle);
    }
}

} // verus!
