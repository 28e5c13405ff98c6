//! Segments on disk: their names, where they stand, and which of them are there.

use vstd::prelude::*;
use vstd::string::*;
use vstd::utf8::*;

use crate::name::{is_valid_component, lemma_valid_component, valid_component, DerivedName};
use crate::order::{
    is_ascending, lemma_insert_multiset, lemma_precedes_asymmetric, lemma_precedes_transitive,
    lemma_text_order_total, sorted_names, text_less, text_precedes,
};
use crate::paths::{entries, join_path, joined_path, lemma_join_adds_one_entry};
use crate::text::{
    all_digits, chars_of, copy, digit_char, digits_value, first_index, is_digit, lemma_digit_char,
    lemma_first_index_is_first, only_digits, parse_unsigned, position_of_first, same_text,
    substring,
};

verus! {

/// A segment by its names: the day, the stream and the segment's own.
#[derive(Debug, PartialEq, Eq, PartialOrd, Ord, Hash)]
pub struct SegmentCandidate {
    day: String,
    stream: String,
    segment: String,
}

pub ghost struct CandidateView {
    pub day: Seq<char>,
    pub stream: Seq<char>,
    pub segment: Seq<char>,
}

impl View for SegmentCandidate {
    type V = CandidateView;

    closed spec fn view(&self) -> CandidateView {
        CandidateView { day: self.day@, stream: self.stream@, segment: self.segment@ }
    }
}

impl Clone for SegmentCandidate {
    fn clone(&self) -> (r: Self)
        ensures
            r == *self,
    {
        SegmentCandidate {
            day: self.day.clone(),
            stream: self.stream.clone(),
            segment: self.segment.clone(),
        }
    }
}

impl SegmentCandidate {
    pub fn new(day: &str, stream: &str, segment: &str) -> (r: Self)
        ensures
            r@ == (CandidateView { day: day@, stream: stream@, segment: segment@ }),
    {
        SegmentCandidate { day: copy(day), stream: copy(stream), segment: copy(segment) }
    }

    pub fn day(&self) -> (r: &str)
        ensures
            r@ == self@.day,
    {
        self.day.as_str()
    }

    pub fn stream(&self) -> (r: &str)
        ensures
            r@ == self@.stream,
    {
        self.stream.as_str()
    }

    pub fn segment(&self) -> (r: &str)
        ensures
            r@ == self@.segment,
    {
        self.segment.as_str()
    }

    /// Whether the two are the same segment.
    pub fn same(&self, other: &Self) -> (r: bool)
        ensures
            r == (self@ == other@),
    {
        same_text(self.day.as_str(), other.day.as_str()) && same_text(
            self.stream.as_str(),
            other.stream.as_str(),
        ) && same_text(self.segment.as_str(), other.segment.as_str())
    }

    /// Whether this segment comes before the other: by day, then by stream, then by
    /// its own name.
    pub fn precedes(&self, other: &Self) -> (r: bool)
        ensures
            r == candidate_precedes(self@, other@),
    {
        if !same_text(self.day.as_str(), other.day.as_str()) {
            return text_less(self.day.as_str(), other.day.as_str());
        }
        if !same_text(self.stream.as_str(), other.stream.as_str()) {
            return text_less(self.stream.as_str(), other.stream.as_str());
        }
        text_less(self.segment.as_str(), other.segment.as_str())
    }
}

/// `a` comes before `b`: by day, then by stream, then by its own name.
pub open spec fn candidate_precedes(a: CandidateView, b: CandidateView) -> bool {
    if a.day != b.day {
        text_precedes(a.day, b.day)
    } else if a.stream != b.stream {
        text_precedes(a.stream, b.stream)
    } else {
        text_precedes(a.segment, b.segment)
    }
}

proof fn lemma_text_precedes_strict(a: Seq<char>, b: Seq<char>, c: Seq<char>)
    ensures
        text_precedes(a, b) ==> !text_precedes(b, a),
        text_precedes(a, b) && text_precedes(b, c) ==> text_precedes(a, c),
        !text_precedes(a, a),
{
    let (x, y, z) = (encode_utf8(a), encode_utf8(b), encode_utf8(c));
    if text_precedes(a, b) {
        lemma_precedes_asymmetric(x, y);
        if text_precedes(b, c) {
            lemma_precedes_transitive(x, y, z);
        }
    }
    if text_precedes(a, a) {
        lemma_precedes_asymmetric(x, x);
    }
}

/// The order of segments is strict and transitive.
pub proof fn lemma_candidate_order(a: CandidateView, b: CandidateView, c: CandidateView)
    ensures
        candidate_precedes(a, b) ==> !candidate_precedes(b, a),
        candidate_precedes(a, b) && candidate_precedes(b, c) ==> candidate_precedes(a, c),
        !candidate_precedes(a, a),
        a == b || candidate_precedes(a, b) || candidate_precedes(b, a),
{
    lemma_text_precedes_strict(a.day, b.day, c.day);
    lemma_text_precedes_strict(a.stream, b.stream, c.stream);
    lemma_text_precedes_strict(a.segment, b.segment, c.segment);
    lemma_text_precedes_strict(b.day, a.day, c.day);
    lemma_text_precedes_strict(b.stream, a.stream, c.stream);
    lemma_text_precedes_strict(b.segment, a.segment, c.segment);
    lemma_text_order_total(a.day, b.day);
    lemma_text_order_total(a.stream, b.stream);
    lemma_text_order_total(a.segment, b.segment);
}

/// The newest segments come first.
pub open spec fn is_newest_first(v: Seq<SegmentCandidate>) -> bool {
    forall|i: int, j: int|
        0 <= i < j < v.len() ==> !candidate_precedes((#[trigger] v[i])@, (#[trigger] v[j])@)
}

proof fn lemma_insert_newest(v: Seq<SegmentCandidate>, k: int, item: SegmentCandidate)
    requires
        is_newest_first(v),
        0 <= k <= v.len(),
        forall|i: int| 0 <= i < k ==> !candidate_precedes((#[trigger] v[i])@, item@),
        k < v.len() ==> candidate_precedes(v[k]@, item@),
    ensures
        is_newest_first(v.insert(k, item)),
{
    let r = v.insert(k, item);
    assert forall|i: int, j: int| 0 <= i < j < r.len() implies !candidate_precedes(
        (#[trigger] r[i])@,
        (#[trigger] r[j])@,
    ) by {
        if j == k {
            assert(r[i] == v[i]);
        } else if i == k {
            assert(r[j] == v[j - 1]);
            if candidate_precedes(item@, v[j - 1]@) {
                lemma_candidate_order(v[k]@, item@, v[j - 1]@);
                if j - 1 == k {
                    lemma_candidate_order(v[k]@, v[k]@, v[k]@);
                }
            }
        } else {
            let a = if i < k {
                i
            } else {
                i - 1
            };
            let b = if j < k {
                j
            } else {
                j - 1
            };
            assert(r[i] == v[a] && r[j] == v[b]);
        }
    }
}

/// The same segments, newest first.
pub fn newest_first(candidates: Vec<SegmentCandidate>) -> (r: Vec<SegmentCandidate>)
    ensures
        is_newest_first(r@),
        r@.to_multiset() == candidates@.to_multiset(),
{
    let mut out: Vec<SegmentCandidate> = Vec::new();
    let mut i: usize = 0;
    proof {
        assert(candidates@.take(0) =~= Seq::<SegmentCandidate>::empty());
    }
    while i < candidates.len()
        invariant
            i <= candidates@.len(),
            is_newest_first(out@),
            out@.to_multiset() == candidates@.take(i as int).to_multiset(),
        decreases candidates@.len() - i,
    {
        let mut k: usize = 0;
        while k < out.len() && !out[k].precedes(&candidates[i])
            invariant
                i < candidates@.len(),
                k <= out@.len(),
                forall|j: int|
                    0 <= j < k ==> !candidate_precedes((#[trigger] out@[j])@, candidates@[i as int]@),
            decreases out@.len() - k,
        {
            k = k + 1;
        }
        proof {
            broadcast use vstd::seq_lib::group_to_multiset_ensures;

            lemma_insert_newest(out@, k as int, candidates@[i as int]);
            assert(candidates@.take(i + 1) =~= candidates@.take(i as int).push(
                candidates@[i as int],
            ));
            lemma_insert_multiset(out@, k as int, candidates@[i as int]);
        }
        out.insert(k, candidates[i].clone());
        i = i + 1;
    }
    proof {
        assert(candidates@.take(candidates@.len() as int) =~= candidates@);
    }
    out
}

// ---------------------------------------------------------------------------
// Names
// ---------------------------------------------------------------------------

/// Whether the Gregorian calendar has a leap day in that year.
pub open spec fn is_leap_year(year: int) -> bool {
    year % 4 == 0 && (year % 100 != 0 || year % 400 == 0)
}

/// The days of a month, which is a number from 1 to 12.
pub open spec fn month_days(year: int, month: int) -> int {
    if month == 2 {
        if is_leap_year(year) {
            29
        } else {
            28
        }
    } else if month == 4 || month == 6 || month == 9 || month == 11 {
        30
    } else {
        31
    }
}

/// The calendar has that day.
pub open spec fn is_calendar_day(year: int, month: int, day: int) -> bool {
    1 <= month <= 12 && 1 <= day <= month_days(year, month)
}

/// `time::Month::try_from` and `time::Date::from_calendar_date`: whether the
/// Gregorian calendar has that day.
#[verifier::external_body]
fn calendar_has(year: i32, month: u8, day: u8) -> (r: bool)
    requires
        0 <= year <= 9999,
    ensures
        r == is_calendar_day(year as int, month as int, day as int),
{
    match time::Month::try_from(month) {
        Ok(month) => time::Date::from_calendar_date(year, month, day).is_ok(),
        Err(_) => false,
    }
}

/// `time::Time::from_hms`: whether a day has that time.
#[verifier::external_body]
fn clock_has(hour: u8, minute: u8, second: u8) -> (r: bool)
    ensures
        r == (hour < 24 && minute < 60 && second < 60),
{
    time::Time::from_hms(hour, minute, second).is_ok()
}

/// A calendar day.
#[derive(Clone, Copy, Debug, PartialEq, Eq, Structural)]
pub struct CalendarDay {
    pub year: i32,
    pub month: u8,
    pub day: u8,
}

/// The number that the digits from `from` up to `to` write.
pub open spec fn digits_between(s: Seq<char>, from: int, to: int) -> nat {
    digits_value(s.subrange(from, to))
}

/// The day that a name of eight digits writes, where the calendar has it.
pub open spec fn day_of(name: Seq<char>) -> Option<CalendarDay> {
    if name.len() == 8 && all_digits(name) && is_calendar_day(
        digits_between(name, 0, 4) as int,
        digits_between(name, 4, 6) as int,
        digits_between(name, 6, 8) as int,
    ) {
        Some(
            CalendarDay {
                year: digits_between(name, 0, 4) as i32,
                month: digits_between(name, 4, 6) as u8,
                day: digits_between(name, 6, 8) as u8,
            },
        )
    } else {
        None
    }
}

proof fn lemma_short_digits(s: Seq<char>)
    requires
        all_digits(s),
        s.len() <= 4,
    ensures
        s.len() == 0 ==> digits_value(s) == 0,
        s.len() <= 1 ==> digits_value(s) <= 9,
        s.len() <= 2 ==> digits_value(s) <= 99,
        s.len() <= 3 ==> digits_value(s) <= 999,
        digits_value(s) <= 9999,
    decreases s.len(),
{
    if s.len() > 0 {
        assert(is_digit(s.last()));
        assert forall|i: int| 0 <= i < s.drop_last().len() implies is_digit(
            #[trigger] s.drop_last()[i],
        ) by {
            assert(s.drop_last()[i] == s[i]);
        }
        lemma_short_digits(s.drop_last());
    }
}

/// The number that a few digits of a name write.
fn number_between(chars: &Vec<char>, from: usize, to: usize) -> (r: u64)
    requires
        from < to <= chars@.len(),
        to - from <= 4,
        all_digits(chars@),
    ensures
        r == digits_between(chars@, from as int, to as int),
        r <= 9999,
        to - from <= 2 ==> r <= 99,
{
    let piece = substring(chars, from, to);
    proof {
        let s = chars@.subrange(from as int, to as int);
        assert forall|i: int| 0 <= i < s.len() implies is_digit(#[trigger] s[i]) by {
            assert(s[i] == chars@[from + i]);
        }
        lemma_short_digits(s);
        assert(is_digit(s[0]));
    }
    match parse_unsigned(piece.as_str(), 9999) {
        Some(n) => n,
        None => 0,
    }
}

/// The day that a name writes.
pub fn parse_day(value: &str) -> (r: Option<CalendarDay>)
    ensures
        r == day_of(value@),
{
    let chars = chars_of(value);
    if chars.len() != 8 || !only_digits(value) {
        return None;
    }
    let year = number_between(&chars, 0, 4) as i32;
    let month = number_between(&chars, 4, 6) as u8;
    let day = number_between(&chars, 6, 8) as u8;
    if calendar_has(year, month, day) {
        Some(CalendarDay { year, month, day })
    } else {
        None
    }
}

/// A time of six digits, an underscore, and a length in seconds of three digits or
/// more.
pub open spec fn is_segment_name(name: Seq<char>) -> bool {
    let k = first_index(name, '_');
    let time = name.subrange(0, k);
    let duration = name.skip(k + 1);
    &&& k == 6
    &&& duration.len() >= 3
    &&& all_digits(time)
    &&& all_digits(duration)
    &&& digits_between(time, 0, 2) < 24
    &&& digits_between(time, 2, 4) < 60
    &&& digits_between(time, 4, 6) < 60
}

pub fn valid_segment_name(value: &str) -> (r: bool)
    ensures
        r == is_segment_name(value@),
{
    let chars = chars_of(value);
    let k: usize = match position_of_first(&chars, '_') {
        Some(k) => k,
        None => return false,
    };
    if k != 6 {
        return false;
    }
    let time = substring(&chars, 0, k);
    let duration = substring(&chars, k + 1, chars.len());
    proof {
        assert(duration@ =~= value@.skip(k + 1));
    }
    if chars.len() - (k + 1) < 3 || !only_digits(time.as_str()) || !only_digits(duration.as_str()) {
        return false;
    }
    let digits = chars_of(time.as_str());
    let hour = number_between(&digits, 0, 2) as u8;
    let minute = number_between(&digits, 2, 4) as u8;
    let second = number_between(&digits, 4, 6) as u8;
    clock_has(hour, minute, second)
}

/// The session in the name of a capture file.
pub open spec fn session_in(name: Seq<char>) -> Option<Seq<char>> {
    if name.len() >= 18 && name.take(5) == "tmux_"@ && name.skip(name.len() - 13)
        == "_screen.jsonl"@ {
        Some(name.subrange(5, name.len() - 13))
    } else {
        None
    }
}

/// The name of a capture file.
pub open spec fn is_capture_filename(name: Seq<char>) -> bool {
    session_in(name) is Some && is_valid_component(name) && is_valid_component(session_in(name)->0)
}

pub fn valid_capture_filename(value: &str) -> (r: bool)
    ensures
        r == is_capture_filename(value@),
{
    let chars = chars_of(value);
    let n: usize = chars.len();
    if n < 18 {
        return false;
    }
    let prefix = substring(&chars, 0, 5);
    let suffix = substring(&chars, n - 13, n);
    proof {
        assert(prefix@ =~= value@.take(5));
        assert(suffix@ =~= value@.skip(n - 13));
    }
    if !same_text(prefix.as_str(), "tmux_") || !same_text(suffix.as_str(), "_screen.jsonl") {
        return false;
    }
    let session = substring(&chars, 5, n - 13);
    valid_component(value) && valid_component(session.as_str())
}

/// The file of a session whose name stands as it is, is a capture file.
pub proof fn lemma_session_file_is_capture(session: Seq<char>)
    requires
        is_valid_component(session),
        session.len() + 18 <= crate::name::MAX_COMPONENT_BYTES,
    ensures
        is_capture_filename("tmux_"@ + session + "_screen.jsonl"@),
{
    let name = "tmux_"@ + session + "_screen.jsonl"@;
    reveal_strlit("tmux_");
    reveal_strlit("_screen.jsonl");
    lemma_valid_component(session);
    lemma_valid_component(name);
    assert(name.len() == session.len() + 18);
    assert(name.take(5) =~= "tmux_"@);
    assert(name.skip(name.len() - 13) =~= "_screen.jsonl"@);
    assert(name.subrange(5, name.len() - 13) =~= session);
    assert forall|i: int| 0 <= i < name.len() implies ({
        let c = #[trigger] name[i];
        crate::text::is_lower(c) || is_digit(c) || (i > 0 && (c == '.' || c == '_' || c == '-'))
    }) by {
        if i < 5 {
            assert(name[i] == "tmux_"@[i]);
        } else if i < 5 + session.len() {
            assert(name[i] == session[i - 5]);
        } else {
            assert(name[i] == "_screen.jsonl"@[i - 5 - session.len()]);
        }
    }
}

// ---------------------------------------------------------------------------
// Directories
// ---------------------------------------------------------------------------

/// What stands at a path where a directory is expected. A symbolic link is not a
/// plain directory.
#[derive(Clone, Copy, Debug, PartialEq, Eq, Structural)]
pub enum DirectoryState {
    Plain,
    NotPlain,
    NotFound,
    Unreadable,
}

/// An entry of a directory. Its name is missing where it could not be read as text.
#[derive(Debug)]
pub struct ListedEntry {
    pub name: Option<String>,
    /// Whether the entry is what is expected there, and no symbolic link.
    pub plain: bool,
}

/// What a directory holds.
#[derive(Debug)]
pub enum Listing {
    Entries(Vec<ListedEntry>),
    NotFound,
    Unreadable,
}

/// An entry of the captures directory, and what the stream's directory below it
/// holds.
#[derive(Debug)]
pub struct DayListing {
    pub entry: ListedEntry,
    pub stream: DirectoryState,
    pub segments: Listing,
}

/// The segments of a listing in order; nothing where an entry stands in the way.
pub open spec fn segments_in(listed: Seq<ListedEntry>) -> Option<Seq<Seq<char>>>
    decreases listed.len(),
{
    if listed.len() == 0 {
        Some(Seq::empty())
    } else {
        let entry = listed.last();
        match segments_in(listed.drop_last()) {
            None => None,
            Some(before) => if entry.name is None {
                None
            } else if !is_segment_name(entry.name->0@) {
                Some(before)
            } else if !entry.plain {
                None
            } else {
                Some(before.push(entry.name->0@))
            },
        }
    }
}

/// The segments of one day.
pub open spec fn day_segments(listing: DayListing) -> Option<Seq<Seq<char>>> {
    if listing.entry.name is None {
        None
    } else if day_of(listing.entry.name->0@) is None {
        Some(Seq::empty())
    } else if !listing.entry.plain {
        None
    } else {
        match listing.stream {
            DirectoryState::NotFound => Some(Seq::empty()),
            DirectoryState::Plain => match listing.segments {
                Listing::Entries(listed) => segments_in(listed@),
                _ => None,
            },
            _ => None,
        }
    }
}

/// The segments of one day as candidates.
pub open spec fn day_candidates(day: Seq<char>, stream: Seq<char>, segments: Seq<Seq<char>>) -> Seq<
    CandidateView,
> {
    segments.map_values(|segment: Seq<char>| CandidateView { day, stream, segment })
}

/// All segments of the stream in the order in which they are listed.
pub open spec fn listed_candidates(days: Seq<DayListing>, stream: Seq<char>) -> Option<
    Seq<CandidateView>,
>
    decreases days.len(),
{
    if days.len() == 0 {
        Some(Seq::empty())
    } else {
        match listed_candidates(days.drop_last(), stream) {
            None => None,
            Some(before) => match day_segments(days.last()) {
                None => None,
                Some(segments) => Some(
                    before + day_candidates(days.last().entry.name->0@, stream, segments),
                ),
            },
        }
    }
}

/// What the captures directory holds of the stream. A directory that is not there
/// holds nothing.
pub open spec fn captured(
    root: DirectoryState,
    days: Option<Seq<DayListing>>,
    stream: Seq<char>,
) -> Option<Seq<CandidateView>> {
    match root {
        DirectoryState::NotFound => Some(Seq::empty()),
        DirectoryState::Plain => match days {
            Some(days) => listed_candidates(days, stream),
            None => None,
        },
        _ => None,
    }
}

pub open spec fn candidate_views(v: Seq<SegmentCandidate>) -> Seq<CandidateView> {
    v.map_values(|c: SegmentCandidate| c@)
}

/// `v` holds the segments `listed`, in some order.
pub open spec fn holds_all(v: Seq<SegmentCandidate>, listed: Seq<CandidateView>) -> bool {
    exists|unsorted: Seq<SegmentCandidate>|
        #![trigger candidate_views(unsorted)]
        candidate_views(unsorted) == listed && v.to_multiset() == unsorted.to_multiset()
}

proof fn lemma_segments_stop(listed: Seq<ListedEntry>, k: int)
    requires
        0 <= k <= listed.len(),
        segments_in(listed.take(k)) is None,
    ensures
        segments_in(listed) is None,
    decreases listed.len() - k,
{
    if k < listed.len() {
        assert(listed.take(k + 1).drop_last() =~= listed.take(k));
        lemma_segments_stop(listed, k + 1);
    } else {
        assert(listed.take(k) =~= listed);
    }
}

proof fn lemma_days_stop(days: Seq<DayListing>, stream: Seq<char>, k: int)
    requires
        0 <= k <= days.len(),
        listed_candidates(days.take(k), stream) is None,
    ensures
        listed_candidates(days, stream) is None,
    decreases days.len() - k,
{
    if k < days.len() {
        assert(days.take(k + 1).drop_last() =~= days.take(k));
        lemma_days_stop(days, stream, k + 1);
    } else {
        assert(days.take(k) =~= days);
    }
}

/// The segments of a listing, as candidates at the end of `out`.
fn take_segments(
    out: &mut Vec<SegmentCandidate>,
    day: &str,
    stream: &str,
    listed: &Vec<ListedEntry>,
) -> (r: bool)
    ensures
        r == segments_in(listed@) is Some,
        r ==> candidate_views(final(out)@) == candidate_views(old(out)@) + day_candidates(
            day@,
            stream@,
            segments_in(listed@)->0,
        ),
{
    let mut i: usize = 0;
    proof {
        assert(listed@.take(0) =~= Seq::<ListedEntry>::empty());
        assert(candidate_views(out@) =~= candidate_views(old(out)@) + day_candidates(
            day@,
            stream@,
            Seq::empty(),
        ));
    }
    while i < listed.len()
        invariant
            i <= listed@.len(),
            segments_in(listed@.take(i as int)) is Some,
            candidate_views(out@) =~= candidate_views(old(out)@) + day_candidates(
                day@,
                stream@,
                segments_in(listed@.take(i as int))->0,
            ),
        decreases listed@.len() - i,
    {
        let ghost before = segments_in(listed@.take(i as int))->0;
        proof {
            assert(listed@.take(i + 1).drop_last() =~= listed@.take(i as int));
            assert(listed@.take(i + 1).last() == listed@[i as int]);
        }
        match &listed[i].name {
            None => {
                proof {
                    lemma_segments_stop(listed@, i + 1);
                }
                return false;
            },
            Some(name) => {
                if valid_segment_name(name.as_str()) {
                    if !listed[i].plain {
                        proof {
                            lemma_segments_stop(listed@, i + 1);
                        }
                        return false;
                    }
                    let ghost held = candidate_views(out@);
                    let candidate = SegmentCandidate::new(day, stream, name.as_str());
                    out.push(candidate);
                    proof {
                        assert(candidate_views(out@) =~= held.push(candidate@));
                        assert(day_candidates(day@, stream@, before.push(name@)) =~= day_candidates(
                            day@,
                            stream@,
                            before,
                        ).push(candidate@));
                    }
                }
            },
        }
        i = i + 1;
    }
    proof {
        assert(listed@.take(listed@.len() as int) =~= listed@);
    }
    true
}

/// The segments of the stream that the captures directory holds, newest first.
/// Nothing where something stands in the way: an entry that is not what its name
/// says, or one that cannot be read.
pub fn scan_candidates(
    root: DirectoryState,
    days: &Option<Vec<DayListing>>,
    stream: &DerivedName,
) -> (r: Option<Vec<SegmentCandidate>>)
    ensures
        ({
            let expected = captured(
                root,
                match *days {
                    Some(days) => Some(days@),
                    None => None,
                },
                stream@,
            );
            match r {
                Some(candidates) => expected is Some && is_newest_first(candidates@) && holds_all(
                    candidates@,
                    expected->0,
                ),
                None => expected is None,
            }
        }),
{
    let mut out: Vec<SegmentCandidate> = Vec::new();
    proof {
        assert(candidate_views(out@) =~= Seq::<CandidateView>::empty());
    }
    match root {
        DirectoryState::NotFound => {
            return Some(out);
        },
        DirectoryState::Plain => {},
        _ => {
            return None;
        },
    }
    let listed = match days {
        Some(listed) => listed,
        None => return None,
    };
    let mut i: usize = 0;
    proof {
        assert(listed@.take(0) =~= Seq::<DayListing>::empty());
    }
    while i < listed.len()
        invariant
            root == DirectoryState::Plain,
            *days == Some(*listed),
            i <= listed@.len(),
            listed_candidates(listed@.take(i as int), stream@) == Some(candidate_views(out@)),
        decreases listed@.len() - i,
    {
        let ghost before = candidate_views(out@);
        proof {
            assert(listed@.take(i + 1).drop_last() =~= listed@.take(i as int));
            assert(listed@.take(i + 1).last() == listed@[i as int]);
            if day_segments(listed@[i as int]) is None {
                lemma_days_stop(listed@, stream@, i + 1);
            }
            if day_segments(listed@[i as int]) is Some && day_segments(listed@[i as int])->0.len() == 0 {
                assert(before + day_candidates(
                    listed@[i as int].entry.name->0@,
                    stream@,
                    day_segments(listed@[i as int])->0,
                ) =~= before);
            }
        }
        let day = &listed[i];
        let name = match &day.entry.name {
            Some(name) => name,
            None => return None,
        };
        if parse_day(name.as_str()).is_some() {
            if !day.entry.plain {
                return None;
            }
            match day.stream {
                DirectoryState::NotFound => {},
                DirectoryState::Plain => match &day.segments {
                    Listing::Entries(segments) => {
                        if !take_segments(&mut out, name.as_str(), stream.as_str(), segments) {
                            return None;
                        }
                    },
                    _ => {
                        return None;
                    },
                },
                _ => {
                    return None;
                },
            }
        }
        i = i + 1;
    }
    proof {
        assert(listed@.take(listed@.len() as int) =~= listed@);
    }
    Some(newest_first(out))
}

/// A candidate whose names may stand in a path and are those of a segment.
pub open spec fn is_candidate(c: CandidateView) -> bool {
    &&& day_of(c.day) is Some
    &&& is_valid_component(c.day)
    &&& is_valid_component(c.stream)
    &&& is_valid_component(c.segment)
    &&& is_segment_name(c.segment)
}

/// Whether the candidate's names may stand in a path and are those of a segment.
pub fn candidate_is_valid(candidate: &SegmentCandidate) -> (r: bool)
    ensures
        r == is_candidate(candidate@),
{
    parse_day(candidate.day()).is_some() && valid_component(candidate.day()) && valid_component(
        candidate.stream(),
    ) && valid_component(candidate.segment()) && valid_segment_name(candidate.segment())
}

/// The directory of a segment below `root`.
pub open spec fn segment_path(root: Seq<u8>, c: CandidateView) -> Seq<u8> {
    join_path(
        join_path(join_path(root, encode_utf8(c.day)), encode_utf8(c.stream)),
        encode_utf8(c.segment),
    )
}

/// The directory of a segment below `root`.
pub fn segment_directory(root: &[u8], candidate: &SegmentCandidate) -> (r: Vec<u8>)
    ensures
        r@ == segment_path(root@, candidate@),
{
    let day = joined_path(root, candidate.day().as_bytes());
    let stream = joined_path(day.as_slice(), candidate.stream().as_bytes());
    joined_path(stream.as_slice(), candidate.segment().as_bytes())
}

/// The directory of a candidate stands exactly three entries below the root: its
/// names cannot lead anywhere else.
pub proof fn lemma_segment_stays_below_root(root: Seq<u8>, c: CandidateView)
    requires
        is_candidate(c),
    ensures
        entries(segment_path(root, c)) == entries(root).push(encode_utf8(c.day)).push(
            encode_utf8(c.stream),
        ).push(encode_utf8(c.segment)),
{
    crate::name::lemma_valid_component_is_entry(c.day);
    crate::name::lemma_valid_component_is_entry(c.stream);
    crate::name::lemma_valid_component_is_entry(c.segment);
    let day = join_path(root, encode_utf8(c.day));
    let stream = join_path(day, encode_utf8(c.stream));
    lemma_join_adds_one_entry(root, encode_utf8(c.day));
    lemma_join_adds_one_entry(day, encode_utf8(c.stream));
    lemma_join_adds_one_entry(stream, encode_utf8(c.segment));
}

/// The files of a segment.
#[derive(Debug)]
pub enum ResolvedSegmentFiles {
    /// The names of the files in order.
    Found(Vec<String>),
    Empty,
    Missing,
    Invalid,
}

/// An entry of a segment that is no capture file.
pub open spec fn is_intruder(entry: ListedEntry) -> bool {
    entry.name is None || !is_capture_filename(entry.name->0@) || !entry.plain
}

pub open spec fn has_intruder(listed: Seq<ListedEntry>) -> bool {
    exists|i: int| 0 <= i < listed.len() && is_intruder(#[trigger] listed[i])
}

pub open spec fn entry_names(listed: Seq<ListedEntry>) -> Seq<String> {
    listed.map_values(|e: ListedEntry| e.name->0)
}

/// What the first directory on the way that is not plain makes of a segment.
pub open spec fn way_fault(
    day: DirectoryState,
    stream: DirectoryState,
    segment: DirectoryState,
) -> Option<ResolvedSegmentFiles> {
    let first = if day != DirectoryState::Plain {
        day
    } else if stream != DirectoryState::Plain {
        stream
    } else {
        segment
    };
    match first {
        DirectoryState::Plain => None,
        DirectoryState::NotFound => Some(ResolvedSegmentFiles::Missing),
        _ => Some(ResolvedSegmentFiles::Invalid),
    }
}

/// The directories from the captures directory down to a segment.
#[derive(Clone, Copy, Debug, PartialEq, Eq, Structural)]
pub struct SegmentWay {
    pub root: DirectoryState,
    pub day: DirectoryState,
    pub stream: DirectoryState,
    pub segment: DirectoryState,
}

/// What keeps a segment from being looked into.
pub open spec fn segment_fault(c: CandidateView, way: SegmentWay) -> Option<ResolvedSegmentFiles> {
    if way.root == DirectoryState::NotFound || way.root == DirectoryState::Unreadable {
        Some(ResolvedSegmentFiles::Missing)
    } else if way.root == DirectoryState::NotPlain || !is_candidate(c) {
        Some(ResolvedSegmentFiles::Invalid)
    } else {
        way_fault(way.day, way.stream, way.segment)
    }
}

fn find_fault(candidate: &SegmentCandidate, way: SegmentWay) -> (r: Option<ResolvedSegmentFiles>)
    ensures
        r == segment_fault(candidate@, way),
{
    if way.root == DirectoryState::NotFound || way.root == DirectoryState::Unreadable {
        return Some(ResolvedSegmentFiles::Missing);
    }
    if way.root == DirectoryState::NotPlain || !candidate_is_valid(candidate) {
        return Some(ResolvedSegmentFiles::Invalid);
    }
    let first = if way.day != DirectoryState::Plain {
        way.day
    } else if way.stream != DirectoryState::Plain {
        way.stream
    } else {
        way.segment
    };
    match first {
        DirectoryState::Plain => None,
        DirectoryState::NotFound => Some(ResolvedSegmentFiles::Missing),
        _ => Some(ResolvedSegmentFiles::Invalid),
    }
}

/// The files of a segment: all of its entries, where each is a capture file.
pub fn resolve_segment_files(
    candidate: &SegmentCandidate,
    way: SegmentWay,
    listing: &Listing,
) -> (r: ResolvedSegmentFiles)
    ensures
        match segment_fault(candidate@, way) {
            Some(fault) => r == fault,
            None => match *listing {
                Listing::NotFound => r is Missing,
                Listing::Unreadable => r is Invalid,
                Listing::Entries(listed) => if has_intruder(listed@) {
                    r is Invalid
                } else if listed@.len() == 0 {
                    r is Empty
                } else {
                    &&& r is Found
                    &&& is_ascending(r->Found_0@)
                    &&& r->Found_0@.to_multiset() == entry_names(listed@).to_multiset()
                },
            },
        },
{
    if let Some(fault) = find_fault(candidate, way) {
        return fault;
    }
    let listed = match listing {
        Listing::Entries(listed) => listed,
        Listing::NotFound => return ResolvedSegmentFiles::Missing,
        Listing::Unreadable => return ResolvedSegmentFiles::Invalid,
    };
    let mut names: Vec<String> = Vec::new();
    let mut i: usize = 0;
    while i < listed.len()
        invariant
            segment_fault(candidate@, way) is None,
            *listing == Listing::Entries(*listed),
            i <= listed@.len(),
            forall|j: int| 0 <= j < i ==> !is_intruder(#[trigger] listed@[j]),
            names@ =~= entry_names(listed@).take(i as int),
        decreases listed@.len() - i,
    {
        match &listed[i].name {
            Some(name) => {
                if !valid_capture_filename(name.as_str()) || !listed[i].plain {
                    proof {
                        assert(is_intruder(listed@[i as int]));
                    }
                    return ResolvedSegmentFiles::Invalid;
                }
                names.push(name.clone());
            },
            None => {
                proof {
                    assert(is_intruder(listed@[i as int]));
                }
                return ResolvedSegmentFiles::Invalid;
            },
        }
        i = i + 1;
    }
    if listed.len() == 0 {
        return ResolvedSegmentFiles::Empty;
    }
    proof {
        assert(entry_names(listed@).take(listed@.len() as int) =~= entry_names(listed@));
    }
    ResolvedSegmentFiles::Found(sorted_names(names))
}

// ---------------------------------------------------------------------------
// What is read back, and what is found
// ---------------------------------------------------------------------------

/// A number below a hundred in two digits.
pub open spec fn two_digits(n: nat) -> Seq<char> {
    seq![digit_char(n / 10), digit_char(n % 10)]
}

/// The name of a day: its year in four digits, its month and its day in two.
pub open spec fn day_name(year: nat, month: nat, day: nat) -> Seq<char> {
    two_digits(year / 100) + two_digits(year % 100) + two_digits(month) + two_digits(day)
}

proof fn lemma_two_digits(n: nat)
    requires
        n < 100,
    ensures
        two_digits(n).len() == 2,
        all_digits(two_digits(n)),
        digits_value(two_digits(n)) == n,
{
    let s = two_digits(n);
    lemma_digit_char(n / 10);
    lemma_digit_char(n % 10);
    let front = s.drop_last();
    assert(front =~= seq![digit_char(n / 10)]);
    assert(front.drop_last() =~= Seq::<char>::empty());
    assert(digits_value(front.drop_last()) == 0);
    assert(digits_value(front) == n / 10);
    assert(s.last() == digit_char(n % 10));
}

proof fn lemma_four_digits(high: nat, low: nat)
    requires
        high < 100,
        low < 100,
    ensures
        (two_digits(high) + two_digits(low)).len() == 4,
        digits_value(two_digits(high) + two_digits(low)) == high * 100 + low,
{
    let s = two_digits(high) + two_digits(low);
    lemma_two_digits(high);
    lemma_two_digits(low);
    lemma_digit_char(low / 10);
    lemma_digit_char(low % 10);
    let three = s.drop_last();
    let two = three.drop_last();
    assert(two =~= two_digits(high));
    assert(three.last() == digit_char(low / 10));
    assert(s.last() == digit_char(low % 10));
    assert(digits_value(three) == high * 10 + low / 10);
}

/// A day that is written as a name is read back, where the calendar has it; else the name
/// is that of no day.
pub proof fn lemma_day_is_read_back(year: nat, month: nat, day: nat)
    requires
        year <= 9999,
        month < 100,
        day < 100,
    ensures
        is_calendar_day(year as int, month as int, day as int) ==> day_of(
            day_name(year, month, day),
        ) == Some(CalendarDay { year: year as i32, month: month as u8, day: day as u8 }),
        !is_calendar_day(year as int, month as int, day as int) ==> day_of(
            day_name(year, month, day),
        ) is None,
{
    let name = day_name(year, month, day);
    lemma_two_digits(year / 100);
    lemma_two_digits(year % 100);
    lemma_two_digits(month);
    lemma_two_digits(day);
    lemma_four_digits(year / 100, year % 100);
    assert(name.len() == 8);
    assert(name.subrange(0, 4) =~= two_digits(year / 100) + two_digits(year % 100));
    assert(name.subrange(4, 6) =~= two_digits(month));
    assert(name.subrange(6, 8) =~= two_digits(day));
    assert forall|i: int| 0 <= i < name.len() implies is_digit(#[trigger] name[i]) by {
        if i < 2 {
            assert(name[i] == two_digits(year / 100)[i]);
        } else if i < 4 {
            assert(name[i] == two_digits(year % 100)[i - 2]);
        } else if i < 6 {
            assert(name[i] == two_digits(month)[i - 4]);
        } else {
            assert(name[i] == two_digits(day)[i - 6]);
        }
    }
    assert((year / 100) * 100 + year % 100 == year);
}

/// A name that is not eight characters long, or holds another character than a digit, is
/// that of no day.
pub proof fn lemma_other_names_are_no_days(name: Seq<char>)
    requires
        name.len() != 8 || exists|i: int| 0 <= i < name.len() && !is_digit(#[trigger] name[i]),
    ensures
        day_of(name) is None,
{
}

/// A time of the day in six digits, an underscore and a length of three digits or more
/// are the name of a segment; with fewer digits, or a time that no day has, they are not.
pub proof fn lemma_segment_name_is_recognised(hour: nat, minute: nat, second: nat, duration: Seq<char>)
    requires
        hour < 100,
        minute < 100,
        second < 100,
    ensures
        is_segment_name(
            two_digits(hour) + two_digits(minute) + two_digits(second) + seq!['_'] + duration,
        ) <==> hour <= 23 && minute <= 59 && second <= 59 && duration.len() >= 3 && all_digits(
            duration,
        ),
{
    let time = two_digits(hour) + two_digits(minute) + two_digits(second);
    let name = time + seq!['_'] + duration;
    lemma_two_digits(hour);
    lemma_two_digits(minute);
    lemma_two_digits(second);
    assert(time.len() == 6);
    assert forall|i: int| 0 <= i < 6 implies is_digit(#[trigger] time[i]) by {
        if i < 2 {
            assert(time[i] == two_digits(hour)[i]);
        } else if i < 4 {
            assert(time[i] == two_digits(minute)[i - 2]);
        } else {
            assert(time[i] == two_digits(second)[i - 4]);
        }
    }
    assert forall|i: int| 0 <= i < 6 implies #[trigger] name[i] != '_' by {
        assert(name[i] == time[i]);
        assert(is_digit(time[i]));
    }
    assert(name[6] == '_');
    lemma_first_index_is_first(name, '_');
    assert(name.subrange(0, 6) =~= time);
    assert(name.skip(7) =~= duration);
    assert(time.subrange(0, 2) =~= two_digits(hour));
    assert(time.subrange(2, 4) =~= two_digits(minute));
    assert(time.subrange(4, 6) =~= two_digits(second));
}

/// Only what stands between the two fixed parts of a capture file's name is its session.
pub proof fn lemma_session_is_read_back(session: Seq<char>)
    ensures
        session_in("tmux_"@ + session + "_screen.jsonl"@) == Some(session),
{
    let name = "tmux_"@ + session + "_screen.jsonl"@;
    reveal_strlit("tmux_");
    reveal_strlit("_screen.jsonl");
    assert(name.take(5) =~= "tmux_"@);
    assert(name.skip(name.len() - 13) =~= "_screen.jsonl"@);
    assert(name.subrange(5, name.len() - 13) =~= session);
}

/// An entry stands in the way of a listing: its name cannot be read, or it has the name
/// of a segment and is no plain directory.
pub open spec fn blocks_segments(entry: ListedEntry) -> bool {
    entry.name is None || (is_segment_name(entry.name->0@) && !entry.plain)
}

/// A listing gives exactly the names of segments that it holds, and nothing at all where
/// one of its entries stands in the way.
pub proof fn lemma_every_listed_segment_is_found(listed: Seq<ListedEntry>, name: Seq<char>)
    ensures
        segments_in(listed) is None <==> exists|i: int|
            0 <= i < listed.len() && blocks_segments(#[trigger] listed[i]),
        segments_in(listed) is Some ==> (segments_in(listed)->0.contains(name) <==> is_segment_name(
            name,
        ) && exists|i: int|
            0 <= i < listed.len() && (#[trigger] listed[i]).name is Some && listed[i].name->0@
                == name),
    decreases listed.len(),
{
    if listed.len() > 0 {
        let before = listed.drop_last();
        let n = listed.len() - 1;
        let entry = listed.last();
        lemma_every_listed_segment_is_found(before, name);
        assert(listed[n] == entry);
        assert forall|i: int| 0 <= i < n implies #[trigger] listed[i] == before[i] by {}
        if segments_in(before) is None {
            let i = choose|i: int| 0 <= i < before.len() && blocks_segments(#[trigger] before[i]);
            assert(blocks_segments(listed[i]));
        } else if segments_in(listed) is Some {
            let found = segments_in(before)->0;
            let all = segments_in(listed)->0;
            assert forall|i: int| 0 <= i < listed.len() implies !blocks_segments(
                #[trigger] listed[i],
            ) by {
                if i < n {
                    assert(!blocks_segments(before[i]));
                }
            }
            if found.contains(name) {
                let k = choose|k: int| 0 <= k < found.len() && found[k] == name;
                assert(all[k] == name);
                let i = choose|i: int|
                    0 <= i < before.len() && (#[trigger] before[i]).name is Some
                        && before[i].name->0@ == name;
                assert(listed[i].name->0@ == name);
            }
            if is_segment_name(name) && entry.name->0@ == name {
                assert(all[all.len() - 1] == name);
            }
            if all.contains(name) && !found.contains(name) {
                let k = choose|k: int| 0 <= k < all.len() && all[k] == name;
                if k < found.len() {
                    assert(found[k] == name);
                }
                assert(entry.name->0@ == name);
                assert(listed[n].name->0@ == name);
            }
            if is_segment_name(name) && exists|i: int|
                0 <= i < listed.len() && (#[trigger] listed[i]).name is Some && listed[i].name->0@
                    == name {
                let i = choose|i: int|
                    0 <= i < listed.len() && (#[trigger] listed[i]).name is Some
                        && listed[i].name->0@ == name;
                if i < n {
                    assert(before[i].name->0@ == name);
                }
            }
        } else {
            assert(blocks_segments(listed[n]));
        }
    }
}

/// The captures directory gives exactly the segments that lie below one of its days in
/// the stream's directory.
pub proof fn lemma_every_captured_segment_is_found(days: Seq<DayListing>, stream: Seq<char>, c: CandidateView)
    requires
        listed_candidates(days, stream) is Some,
    ensures
        listed_candidates(days, stream)->0.contains(c) <==> c.stream == stream && exists|i: int|
            0 <= i < days.len() && (#[trigger] days[i]).entry.name is Some
                && days[i].entry.name->0@ == c.day && day_segments(days[i]) is Some
                && day_segments(days[i])->0.contains(c.segment),
    decreases days.len(),
{
    if days.len() > 0 {
        let before = days.drop_last();
        let n = days.len() - 1;
        lemma_every_captured_segment_is_found(before, stream, c);
        assert(days[n] == days.last());
        assert forall|i: int| 0 <= i < n implies #[trigger] days[i] == before[i] by {}
        let found = listed_candidates(before, stream)->0;
        let day = days.last().entry.name->0@;
        let segments = day_segments(days.last())->0;
        let added = day_candidates(day, stream, segments);
        let all = listed_candidates(days, stream)->0;
        assert(all =~= found + added);
        if found.contains(c) {
            let k = choose|k: int| 0 <= k < found.len() && found[k] == c;
            assert(all[k] == c);
            let i = choose|i: int|
                0 <= i < before.len() && (#[trigger] before[i]).entry.name is Some
                    && before[i].entry.name->0@ == c.day && day_segments(before[i]) is Some
                    && day_segments(before[i])->0.contains(c.segment);
            assert(days[i].entry.name->0@ == c.day);
        }
        if all.contains(c) && !found.contains(c) {
            let k = choose|k: int| 0 <= k < all.len() && all[k] == c;
            if k < found.len() {
                assert(found[k] == c);
            } else {
                let m = k - found.len();
                assert(added[m] == c);
                assert(segments[m] == c.segment);
                assert(days[n].entry.name->0@ == c.day);
            }
        }
        if c.stream == stream && exists|i: int|
            0 <= i < days.len() && (#[trigger] days[i]).entry.name is Some
                && days[i].entry.name->0@ == c.day && day_segments(days[i]) is Some
                && day_segments(days[i])->0.contains(c.segment) {
            let i = choose|i: int|
                0 <= i < days.len() && (#[trigger] days[i]).entry.name is Some
                    && days[i].entry.name->0@ == c.day && day_segments(days[i]) is Some
                    && day_segments(days[i])->0.contains(c.segment);
            if i < n {
                assert(before[i].entry.name->0@ == c.day);
            } else {
                let m = choose|m: int| 0 <= m < segments.len() && segments[m] == c.segment;
                assert(added[m] == c);
                assert(all[found.len() + m] == c);
            }
        }
    }
}

/// A day that is a plain directory gives what its stream's directory lists, and nothing
/// where there is none; what is no day's name is passed over, and what has the name of a
/// day but is no plain directory stands in the way.
pub proof fn lemma_what_a_day_gives(listing: DayListing)
    ensures
        ({
            let named = listing.entry.name is Some;
            let is_day = named && day_of(listing.entry.name->0@) is Some;
            &&& !named ==> day_segments(listing) is None
            &&& named && !is_day ==> day_segments(listing) == Some(Seq::<Seq<char>>::empty())
            &&& is_day && !listing.entry.plain ==> day_segments(listing) is None
            &&& is_day && listing.entry.plain && listing.stream == DirectoryState::NotFound
                ==> day_segments(listing) == Some(Seq::<Seq<char>>::empty())
            &&& is_day && listing.entry.plain && (listing.stream == DirectoryState::NotPlain
                || listing.stream == DirectoryState::Unreadable) ==> day_segments(listing) is None
            &&& is_day && listing.entry.plain && listing.stream == DirectoryState::Plain
                ==> match listing.segments {
                Listing::Entries(listed) => day_segments(listing) == segments_in(listed@),
                _ => day_segments(listing) is None,
            }
        }),
{
}

/// One day that stands in the way keeps the whole directory from being listed; without
/// one, it is listed.
pub proof fn lemma_what_keeps_days_from_being_listed(days: Seq<DayListing>, stream: Seq<char>)
    ensures
        listed_candidates(days, stream) is None <==> exists|i: int|
            0 <= i < days.len() && day_segments(#[trigger] days[i]) is None,
        captured(DirectoryState::NotFound, Some(days), stream) == Some(
            Seq::<CandidateView>::empty(),
        ),
        captured(DirectoryState::Plain, Some(days), stream) == listed_candidates(days, stream),
        captured(DirectoryState::NotPlain, Some(days), stream) is None,
        captured(DirectoryState::Unreadable, Some(days), stream) is None,
        captured(DirectoryState::Plain, None, stream) is None,
    decreases days.len(),
{
    if days.len() > 0 {
        let before = days.drop_last();
        let n = days.len() - 1;
        lemma_what_keeps_days_from_being_listed(before, stream);
        assert(days[n] == days.last());
        assert forall|i: int| 0 <= i < n implies #[trigger] days[i] == before[i] by {}
        if listed_candidates(before, stream) is None {
            let i = choose|i: int| 0 <= i < before.len() && day_segments(#[trigger] before[i]) is None;
            assert(day_segments(days[i]) is None);
        } else if listed_candidates(days, stream) is None {
            assert(day_segments(days[n]) is None);
        } else {
            assert forall|i: int| 0 <= i < days.len() implies day_segments(#[trigger] days[i])
                is Some by {
                if i < n {
                    assert(day_segments(before[i]) is Some);
                }
            }
        }
    }
}

/// The files of a segment are its entries in order, where the way to it is plain and each
/// entry is a capture file; a single other entry makes the segment one that cannot be
/// read, and one without entries is empty.
pub proof fn lemma_files_of_a_segment(
    candidate: SegmentCandidate,
    way: SegmentWay,
    listed: Vec<ListedEntry>,
    r: ResolvedSegmentFiles,
)
    requires
        call_ensures(resolve_segment_files, (&candidate, way, &Listing::Entries(listed)), r),
        is_candidate(candidate@),
        way.root == DirectoryState::Plain,
        way.day == DirectoryState::Plain,
        way.stream == DirectoryState::Plain,
        way.segment == DirectoryState::Plain,
    ensures
        r is Empty <==> listed@.len() == 0,
        r is Invalid <==> exists|i: int|
            0 <= i < listed@.len() && ({
                let entry = #[trigger] listed@[i];
                entry.name is None || !is_capture_filename(entry.name->0@) || !entry.plain
            }),
        !(r is Missing),
        r is Found ==> {
            &&& r->Found_0@.len() == listed@.len()
            &&& is_ascending(r->Found_0@)
            &&& forall|i: int|
                0 <= i < listed@.len() ==> r->Found_0@.contains((#[trigger] listed@[i]).name->0)
        },
{
    broadcast use vstd::seq_lib::group_to_multiset_ensures;

    let names = entry_names(listed@);
    if has_intruder(listed@) {
        let i = choose|i: int| 0 <= i < listed@.len() && is_intruder(#[trigger] listed@[i]);
        assert(is_intruder(listed@[i]));
    }
    if r is Found {
        let found = r->Found_0@;
        assert(found.to_multiset().len() == found.len());
        assert(names.to_multiset().len() == names.len());
        assert forall|i: int| 0 <= i < listed@.len() implies found.contains(
            (#[trigger] listed@[i]).name->0,
        ) by {
            assert(names[i] == listed@[i].name->0);
            assert(names.contains(names[i]));
            assert(names.to_multiset().count(names[i]) > 0);
            assert(found.to_multiset().count(names[i]) > 0);
        }
    }
}

/// A segment that cannot be reached is missing where a directory on the way is not there,
/// and cannot be read where one is no plain directory or its name is none of a segment.
pub proof fn lemma_unreachable_segments(
    candidate: SegmentCandidate,
    way: SegmentWay,
    listing: Listing,
    r: ResolvedSegmentFiles,
)
    requires
        call_ensures(resolve_segment_files, (&candidate, way, &listing), r),
    ensures
        way.root == DirectoryState::NotFound || way.root == DirectoryState::Unreadable ==> r
            is Missing,
        way.root == DirectoryState::NotPlain ==> r is Invalid,
        way.root == DirectoryState::Plain && !is_candidate(candidate@) ==> r is Invalid,
        way.root == DirectoryState::Plain && is_candidate(candidate@) ==> {
            &&& way.day == DirectoryState::NotFound ==> r is Missing
            &&& way.day == DirectoryState::NotPlain || way.day == DirectoryState::Unreadable ==> r
                is Invalid
            &&& way.day == DirectoryState::Plain && way.stream == DirectoryState::NotFound ==> r
                is Missing
            &&& way.day == DirectoryState::Plain && (way.stream == DirectoryState::NotPlain
                || way.stream == DirectoryState::Unreadable) ==> r is Invalid
            &&& way.day == DirectoryState::Plain && way.stream == DirectoryState::Plain
                && way.segment == DirectoryState::NotFound ==> r is Missing
            &&& way.day == DirectoryState::Plain && way.stream == DirectoryState::Plain && (
            way.segment == DirectoryState::NotPlain || way.segment == DirectoryState::Unreadable)
                ==> r is Invalid
            &&& way.day == DirectoryState::Plain && way.stream == DirectoryState::Plain
                && way.segment == DirectoryState::Plain && listing is NotFound ==> r is Missing
            &&& way.day == DirectoryState::Plain && way.stream == DirectoryState::Plain
                && way.segment == DirectoryState::Plain && listing is Unreadable ==> r is Invalid
        },
{
}

/// Among two segments the one of the later day comes first, and on the same day and in the
/// same stream the one of the later time.
pub proof fn lemma_newest_comes_first(v: Seq<SegmentCandidate>, i: int, j: int)
    requires
        is_newest_first(v),
        0 <= i < j < v.len(),
    ensures
        !text_precedes(v[i]@.day, v[j]@.day),
        v[i]@.day == v[j]@.day && v[i]@.stream == v[j]@.stream ==> !text_precedes(
            v[i]@.segment,
            v[j]@.segment,
        ),
{
    assert(!candidate_precedes(v[i]@, v[j]@));
    lemma_text_precedes_strict(v[i]@.day, v[j]@.day, v[j]@.day);
}

/// The calendar of every year is that of the year four centuries later; in between, a year
/// has a leap day where four divides it, and of the full centuries each fourth one.
pub proof fn lemma_leap_years(year: int)
    ensures
        is_leap_year(year) <==> is_leap_year(year + 400),
        year % 4 != 0 ==> !is_leap_year(year),
        year % 4 == 0 && year % 100 != 0 ==> is_leap_year(year),
        year % 100 == 0 ==> (is_leap_year(year) <==> (year / 100) % 4 == 0),
{
}

/// Months have thirty-one days, or thirty in April, June, September and November, or
/// twenty-eight in February, which gets the leap day: a year has twelve months and three
/// hundred and sixty-five days, or one more.
pub proof fn lemma_days_of_a_year(year: int, month: int, day: int)
    ensures
        is_calendar_day(year, month, day) ==> 1 <= month <= 12 && 1 <= day <= 31,
        1 <= month <= 12 && 1 <= day <= 28 ==> is_calendar_day(year, month, day),
        1 <= month <= 12 && month != 2 ==> is_calendar_day(year, month, 30),
        is_calendar_day(year, 2, 29) <==> is_leap_year(year),
        !is_calendar_day(year, 2, 30),
        is_calendar_day(year, month, 31) <==> month == 1 || month == 3 || month == 5 || month == 7
            || month == 8 || month == 10 || month == 12,
        month_days(year, 1) + month_days(year, 2) + month_days(year, 3) + month_days(year, 4)
            + month_days(year, 5) + month_days(year, 6) + month_days(year, 7) + month_days(year, 8)
            + month_days(year, 9) + month_days(year, 10) + month_days(year, 11) + month_days(
            year,
            12,
        ) == 365 + (if is_leap_year(year) {
            1int
        } else {
            0
        }),
{
}

/// A capture file is named after its session between the two fixed parts, and both names
/// may stand in a path; no other name is that of a capture file.
pub proof fn lemma_capture_file_names_its_session(name: Seq<char>)
    ensures
        session_in(name) is Some ==> name == "tmux_"@ + session_in(name)->0 + "_screen.jsonl"@,
        is_capture_filename(name) ==> session_in(name) is Some && is_valid_component(
            session_in(name)->0,
        ) && is_valid_component(name),
        session_in(name) is Some && is_valid_component(session_in(name)->0) && is_valid_component(
            name,
        ) ==> is_capture_filename(name),
{
    reveal_strlit("tmux_");
    reveal_strlit("_screen.jsonl");
    if session_in(name) is Some {
        let session = session_in(name)->0;
        let n = name.len() as int;
        assert(name =~= name.take(5) + name.subrange(5, n - 13) + name.skip(n - 13));
        assert(name.subrange(5, n - 13) =~= session);
    }
}

} // verus!
