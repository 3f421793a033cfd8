//! Records written as JSON: an object with named members, or an array that lists the fields in
//! order.

use vstd::prelude::*;

use crate::outside;
use crate::outside::json_count;
use crate::outside::json_elements;
use crate::outside::json_members;
use crate::outside::json_string;
use crate::text;
use crate::text::decimal_of;
use crate::text::told;

verus! {

/// The fields of a record as they stand in a text.
pub enum Parts {
    Named(Vec<(String, String)>),
    Listed(Vec<String>),
}

/// What [`Parts`] say.
pub enum PartsView {
    Named(Seq<(Seq<char>, Seq<char>)>),
    Listed(Seq<Seq<char>>),
}

impl DeepView for Parts {
    type V = PartsView;

    open spec fn deep_view(&self) -> PartsView {
        match self {
            Parts::Named(m) => PartsView::Named(m.deep_view()),
            Parts::Listed(l) => PartsView::Listed(l.deep_view()),
        }
    }
}

/// The value of the first member with this name.
pub open spec fn member(members: Seq<(Seq<char>, Seq<char>)>, name: Seq<char>) -> Option<Seq<char>>
    decreases members.len(),
{
    if members.len() == 0 {
        None
    } else if members[0].0 == name {
        Some(members[0].1)
    } else {
        member(members.drop_first(), name)
    }
}

/// A member under another name hides no member.
pub proof fn lemma_member_insert(
    members: Seq<(Seq<char>, Seq<char>)>,
    place: int,
    name: Seq<char>,
    value: Seq<char>,
    sought: Seq<char>,
)
    requires
        0 <= place <= members.len(),
        name != sought,
    ensures
        member(members.insert(place, (name, value)), sought) == member(members, sought),
    decreases members.len(),
{
    let wide = members.insert(place, (name, value));
    if place == 0 {
        assert(wide.drop_first() =~= members);
    } else if members[0].0 != sought {
        assert(wide[0] == members[0]);
        assert(wide.drop_first() =~= members.drop_first().insert(place - 1, (name, value)));
        lemma_member_insert(members.drop_first(), place - 1, name, value, sought);
    } else {
        assert(wide[0] == members[0]);
    }
}

/// A text without its last `n` letters.
pub open spec fn cut_end(s: Seq<char>, n: nat) -> Seq<char> {
    if s.len() < n {
        s
    } else {
        s.take(s.len() - n)
    }
}

/// The message that a JSON value is not what is expected, up to what is expected.
pub open spec fn unexpected(value: Seq<char>) -> Seq<char> {
    match json_string(value) {
        Err(e) => cut_end(e, "a string"@.len()),
        Ok(s) => match json_count(value) {
            Err(e) => cut_end(e, "u64"@.len()),
            Ok(n) => Seq::empty(),
        },
    }
}

/// The fields of a record.
pub open spec fn parts_of(value: Seq<char>, title: Seq<char>) -> Result<PartsView, Seq<char>> {
    match json_elements(value) {
        Some(list) => Ok(PartsView::Listed(list)),
        None => match json_members(value) {
            Ok(members) => Ok(PartsView::Named(members)),
            Err(e) => Err(unexpected(value) + "struct "@ + title),
        },
    }
}

impl PartsView {
    /// The JSON text of one field: by its name, or by its place.
    pub open spec fn part(self, name: Seq<char>, place: int) -> Option<Seq<char>> {
        match self {
            PartsView::Named(members) => member(members, name),
            PartsView::Listed(list) => if place < list.len() {
                Some(list[place])
            } else {
                None
            },
        }
    }

    /// The fault that comes first, of those that the fields have at their places. Named fields are
    /// read in the order `by_name`; listed ones by their places, and only then does it matter that
    /// the list holds more.
    pub open spec fn fault(self, at: Seq<Option<Seq<char>>>, by_name: Seq<usize>) -> Option<
        Seq<char>,
    > {
        match self {
            PartsView::Named(members) => first_fault(
                by_name.map_values(|place: usize| at[place as int]),
            ),
            PartsView::Listed(list) => first_fault(at.push(excess(list.len(), at.len()))),
        }
    }
}

/// What is wrong, where something is.
pub open spec fn fault_in<T>(r: Result<T, Seq<char>>) -> Option<Seq<char>> {
    match r {
        Ok(v) => None,
        Err(e) => Some(e),
    }
}

/// The first of some faults.
pub open spec fn first_fault(faults: Seq<Option<Seq<char>>>) -> Option<Seq<char>>
    decreases faults.len(),
{
    if faults.len() == 0 {
        None
    } else if faults[0] is Some {
        faults[0]
    } else {
        first_fault(faults.drop_first())
    }
}

pub proof fn lemma_no_fault(faults: Seq<Option<Seq<char>>>)
    ensures
        first_fault(faults) is None ==> forall|i: int|
            0 <= i < faults.len() ==> (#[trigger] faults[i]) is None,
    decreases faults.len(),
{
    if faults.len() > 0 && faults[0] is None {
        lemma_no_fault(faults.drop_first());
        if first_fault(faults) is None {
            assert forall|i: int| 0 <= i < faults.len() implies (#[trigger] faults[i]) is None by {
                if i > 0 {
                    assert(faults[i] == faults.drop_first()[i - 1]);
                }
            }
        }
    }
}

/// The message that a list holds more than the fields of its record.
pub open spec fn excess(len: nat, width: nat) -> Option<Seq<char>> {
    if len > width {
        Some("invalid length "@ + decimal_of(len) + ", expected fewer elements in array"@)
    } else {
        None
    }
}

/// The message that a field is missing: by its name, or by how many come before it.
pub open spec fn missing_part(
    p: PartsView,
    name: Seq<char>,
    place: nat,
    width: nat,
    title: Seq<char>,
) -> Seq<char> {
    match p {
        PartsView::Named(members) => "missing field `"@ + name + "`"@,
        PartsView::Listed(list) => short_of(place, width, title),
    }
}

/// The message that an array ends before the field with this number.
pub open spec fn short_of(place: nat, width: nat, title: Seq<char>) -> Seq<char> {
    "invalid length "@ + decimal_of(place) + ", expected struct "@ + title + " with "@ + decimal_of(
        width,
    ) + " elements"@
}

/// An optional text: absent, `null`, or a string.
pub open spec fn optional_text(part: Option<Seq<char>>) -> Result<Option<Seq<char>>, Seq<char>> {
    match part {
        Some(value) => json_string(value),
        None => Ok(None),
    }
}

/// A text that must be there.
pub open spec fn required_text(part: Option<Seq<char>>, missing: Seq<char>) -> Result<
    Seq<char>,
    Seq<char>,
> {
    match part {
        Some(value) => match json_string(value) {
            Ok(Some(s)) => Ok(s),
            Ok(None) => Err("invalid type: null, expected a string"@),
            Err(e) => Err(e),
        },
        None => Err(missing),
    }
}

/// A count; zero where it is absent.
pub open spec fn count_or_zero(part: Option<Seq<char>>) -> Result<u64, Seq<char>> {
    match part {
        Some(value) => json_count(value),
        None => Ok(0),
    }
}

/// The text is `null`.
pub open spec fn is_null(value: Seq<char>) -> bool {
    json_string(value) == Ok::<Option<Seq<char>>, Seq<char>>(None)
}

/// The member of an object that is a string; nothing where there is no such object, member or
/// string.
pub open spec fn string_member(value: Seq<char>, name: Seq<char>) -> Option<Seq<char>> {
    match any_member(value, name) {
        Some(m) => match json_string(m) {
            Ok(s) => s,
            Err(e) => None,
        },
        None => None,
    }
}

/// The member of an object; nothing where there is no such object or member.
pub open spec fn any_member(value: Seq<char>, name: Seq<char>) -> Option<Seq<char>> {
    match json_members(value) {
        Ok(members) => member(members, name),
        Err(e) => None,
    }
}

pub(crate) fn find_member(members: &Vec<(String, String)>, name: &str) -> (r: Option<String>)
    ensures
        r.deep_view() == member(members.deep_view(), name@),
{
    let n: usize = members.len();
    let ghost all = members.deep_view();
    let mut i: usize = 0;
    assert(all.skip(0) =~= all);
    while i < n
        invariant
            i <= n,
            n == members@.len(),
            all == members.deep_view(),
            member(all, name@) == member(all.skip(i as int), name@),
        decreases n - i,
    {
        let row = &members[i];
        assert(all[i as int] == (row.0@, row.1@));
        if text::same(row.0.as_str(), name) {
            return Some(row.1.clone());
        }
        assert(all.skip(i as int).drop_first() =~= all.skip(i + 1));
        i += 1;
    }
    None
}

impl Parts {
    pub(crate) fn part(&self, name: &str, place: usize) -> (r: Option<String>)
        ensures
            r.deep_view() == self.deep_view().part(name@, place as int),
    {
        match self {
            Parts::Named(members) => find_member(members, name),
            Parts::Listed(list) => if place < list.len() {
                let s = list[place].clone();
                assert(list.deep_view()[place as int] == s@);
                Some(s)
            } else {
                None
            },
        }
    }

    pub(crate) fn find_fault(&self, at: &Vec<Option<String>>, by_name: &Vec<usize>) -> (r: Option<
        String,
    >)
        requires
            forall|i: int| 0 <= i < by_name@.len() ==> (#[trigger] by_name@[i]) < at@.len(),
        ensures
            r.deep_view() == self.deep_view().fault(at.deep_view(), by_name@),
            r is None ==> forall|i: int|
                0 <= i < by_name@.len() ==> at.deep_view()[(#[trigger] by_name@[i]) as int] is None,
    {
        proof {
            let faults = by_name@.map_values(|place: usize| at.deep_view()[place as int]);
            lemma_no_fault(faults);
            assert(forall|i: int|
                0 <= i < by_name@.len() ==> faults[i] == at.deep_view()[(
                #[trigger] by_name@[i]) as int]);
            if let Parts::Listed(list) = self {
                let all = at.deep_view().push(excess(list@.len(), at@.len()));
                lemma_no_fault(all);
                assert(forall|i: int|
                    0 <= i < by_name@.len() ==> all[(#[trigger] by_name@[i]) as int]
                        == at.deep_view()[by_name@[i] as int]);
            }
        }
        match self {
            Parts::Named(members) => {
                let ghost faults = by_name@.map_values(|place: usize| at.deep_view()[place as int]);
                let n: usize = by_name.len();
                let mut i: usize = 0;
                assert(faults.skip(0) =~= faults);
                while i < n
                    invariant
                        i <= n,
                        n == by_name@.len(),
                        forall|i: int|
                            0 <= i < by_name@.len() ==> (#[trigger] by_name@[i]) < at@.len(),
                        faults.len() == n,
                        forall|i: int|
                            0 <= i < by_name@.len() ==> faults[i] == at.deep_view()[(
                            #[trigger] by_name@[i]) as int],
                        self.deep_view().fault(at.deep_view(), by_name@) == first_fault(
                            faults.skip(i as int),
                        ),
                    decreases n - i,
                {
                    let place: usize = by_name[i];
                    assert(by_name@[i as int] < at@.len());
                    assert(faults.skip(i as int)[0] == at.deep_view()[place as int]);
                    assert(at.deep_view()[place as int] == at@[place as int].deep_view());
                    if let Some(e) = &at[place] {
                        return Some(e.clone());
                    }
                    assert(faults.skip(i as int).drop_first() =~= faults.skip(i + 1));
                    i += 1;
                }
                None
            },
            Parts::Listed(list) => {
                let ghost faults = at.deep_view();
                let ghost more = excess(list@.len(), faults.len());
                let ghost all = faults.push(more);
                let n: usize = at.len();
                let mut i: usize = 0;
                assert(all.skip(0) =~= all);
                while i < n
                    invariant
                        i <= n,
                        n == at@.len(),
                        faults == at.deep_view(),
                        all == faults.push(more),
                        self.deep_view().fault(at.deep_view(), by_name@) == first_fault(
                            all.skip(i as int),
                        ),
                    decreases n - i,
                {
                    assert(all.skip(i as int)[0] == at@[i as int].deep_view());
                    if let Some(e) = &at[i] {
                        return Some(e.clone());
                    }
                    assert(all.skip(i as int).drop_first() =~= all.skip(i + 1));
                    i += 1;
                }
                proof {
                    let last = all.skip(n as int);
                    assert(last =~= seq![more]);
                    assert(first_fault(last.drop_first()) is None);
                }
                if list.len() > n {
                    let mut e = "invalid length ".to_owned();
                    e.append(text::decimal(list.len() as u64).as_str());
                    e.append(", expected fewer elements in array");
                    Some(e)
                } else {
                    None
                }
            },
        }
    }
}

/// A copy of what is wrong, where something is.
pub(crate) fn fault_of<T: DeepView>(r: &Result<T, String>) -> (e: Option<String>)
    ensures
        e.deep_view() == fault_in(told(*r)),
{
    match r {
        Ok(v) => None,
        Err(e) => Some(e.clone()),
    }
}

fn without_end(s: String, n: usize) -> (r: String)
    ensures
        r@ == cut_end(s@, n as nat),
{
    let len: usize = s.as_str().unicode_len();
    if len < n {
        s
    } else {
        let r = text::part_of(s.as_str(), 0, len - n);
        assert(r@ =~= cut_end(s@, n as nat));
        r
    }
}

pub(crate) fn read_unexpected(value: &str) -> (r: String)
    ensures
        r@ == unexpected(value@),
{
    match outside::read_string(value) {
        Err(e) => without_end(e, "a string".unicode_len()),
        Ok(s) => match outside::read_count(value) {
            Err(e) => without_end(e, "u64".unicode_len()),
            Ok(n) => {
                let r = String::new();
                assert(r@ =~= Seq::empty());
                r
            },
        },
    }
}

pub(crate) fn read_parts(value: &str, title: &str) -> (r: Result<Parts, String>)
    ensures
        told(r) == parts_of(value@, title@),
{
    match outside::read_elements(value) {
        Some(list) => Ok(Parts::Listed(list)),
        None => match outside::read_members(value) {
            Ok(members) => Ok(Parts::Named(members)),
            Err(e) => {
                let mut e = read_unexpected(value);
                e.append("struct ");
                e.append(title);
                Err(e)
            },
        },
    }
}

pub(crate) fn tell_short(place: u64, width: u64, title: &str) -> (r: String)
    ensures
        r@ == short_of(place as nat, width as nat, title@),
{
    let mut e = "invalid length ".to_owned();
    e.append(text::decimal(place).as_str());
    e.append(", expected struct ");
    e.append(title);
    e.append(" with ");
    e.append(text::decimal(width).as_str());
    e.append(" elements");
    e
}

pub(crate) fn tell_missing(p: &Parts, name: &str, place: u64, width: u64, title: &str) -> (r:
    String)
    ensures
        r@ == missing_part(p.deep_view(), name@, place as nat, width as nat, title@),
{
    match p {
        Parts::Named(members) => text::join(text::join("missing field `", name).as_str(), "`"),
        Parts::Listed(list) => tell_short(place, width, title),
    }
}

pub(crate) fn read_optional_text(part: Option<String>) -> (r: Result<Option<String>, String>)
    ensures
        told(r) == optional_text(part.deep_view()),
{
    match part {
        Some(value) => outside::read_string(value.as_str()),
        None => Ok(None),
    }
}

pub(crate) fn read_required_text(part: Option<String>, missing: String) -> (r: Result<
    String,
    String,
>)
    ensures
        told(r) == required_text(part.deep_view(), missing@),
{
    match part {
        Some(value) => match outside::read_string(value.as_str()) {
            Ok(Some(s)) => Ok(s),
            Ok(None) => Err("invalid type: null, expected a string".to_owned()),
            Err(e) => Err(e),
        },
        None => Err(missing),
    }
}

pub(crate) fn read_count_or_zero(part: Option<String>) -> (r: Result<u64, String>)
    ensures
        told(r) == count_or_zero(part.deep_view()),
{
    match part {
        Some(value) => outside::read_count(value.as_str()),
        None => Ok(0),
    }
}

pub(crate) fn reads_null(value: &str) -> (r: bool)
    ensures
        r == is_null(value@),
{
    match outside::read_string(value) {
        Ok(None) => true,
        _ => false,
    }
}

pub(crate) fn read_any_member(value: &str, name: &str) -> (r: Option<String>)
    ensures
        r.deep_view() == any_member(value@, name@),
{
    match outside::read_members(value) {
        Ok(members) => find_member(&members, name),
        Err(e) => None,
    }
}

pub(crate) fn read_string_member(value: &str, name: &str) -> (r: Option<String>)
    ensures
        r.deep_view() == string_member(value@, name@),
{
    match read_any_member(value, name) {
        Some(m) => match outside::read_string(m.as_str()) {
            Ok(s) => s,
            Err(e) => None,
        },
        None => None,
    }
}

} // verus!
