//! The frame of a line: when, what kind, and what it carries.

use vstd::prelude::*;
use vstd::utf8::*;

use crate::json;
use crate::json::fault_in;
use crate::json::find_member;
use crate::json::member;
use crate::json::short_of;
use crate::json::tell_short;
use crate::outside;
use crate::outside::json_elements;
use crate::outside::json_front_fault;
use crate::outside::json_front_name;
use crate::outside::json_front_string;
use crate::outside::json_members;
use crate::outside::json_nested_fault;
use crate::outside::json_string;
use crate::outside::json_triple;
use crate::text;
use crate::text::decimal_of;
use crate::text::stands_at;
use crate::text::told;

verus! {

/// The frame of a line: when, what kind, and the JSON text of what it carries.
pub struct Frame {
    pub timestamp: Option<String>,
    pub kind: String,
    pub payload: String,
}

/// What a [`Frame`] says.
pub struct FrameView {
    pub timestamp: Option<Seq<char>>,
    pub kind: Seq<char>,
    pub payload: Seq<char>,
}

impl DeepView for Frame {
    type V = FrameView;

    open spec fn deep_view(&self) -> FrameView {
        FrameView {
            timestamp: self.timestamp.deep_view(),
            kind: self.kind@,
            payload: self.payload@,
        }
    }
}

/// Where the fields of a line stand that is an object.
pub struct Shape {
    /// Where its keys stand, quotes included.
    pub keys: Vec<(usize, usize)>,
    /// Behind its closing bracket.
    pub end: usize,
}

/// What a [`Shape`] says.
pub struct ShapeView {
    pub keys: Seq<(usize, usize)>,
    pub end: usize,
}

impl View for Shape {
    type V = ShapeView;

    open spec fn view(&self) -> ShapeView {
        ShapeView { keys: self.keys@, end: self.end }
    }
}

/// What is known of a line on the way through its letters.
pub struct Walk {
    pub depth: usize,
    pub quoted: bool,
    pub escaped: bool,
    /// Where the last string began.
    pub start: usize,
    /// The next string is a key.
    pub keyed: bool,
    pub shape: ShapeView,
}

/// Before the first letter.
pub open spec fn at_start() -> Walk {
    Walk {
        depth: 0,
        quoted: false,
        escaped: false,
        start: 0,
        keyed: false,
        shape: ShapeView { keys: Seq::empty(), end: 0 },
    }
}

/// One letter within a string.
pub open spec fn quoted_step(w: Walk, i: usize, c: char) -> Walk {
    if w.escaped {
        Walk { escaped: false, ..w }
    } else if c == '\\' {
        Walk { escaped: true, ..w }
    } else if c == '"' {
        if w.depth == 1 && w.keyed {
            Walk {
                quoted: false,
                keyed: false,
                shape: ShapeView {
                    keys: w.shape.keys.push((w.start, (i + 1) as usize)),
                    ..w.shape
                },
                ..w
            }
        } else {
            Walk { quoted: false, ..w }
        }
    } else {
        w
    }
}

/// One letter outside of strings. Behind the closing bracket nothing counts.
pub open spec fn plain_step(w: Walk, i: usize, c: char) -> Walk {
    if w.shape.end > 0 {
        w
    } else if c == '"' {
        Walk { quoted: true, start: i, ..w }
    } else if c == '{' || c == '[' {
        if w.depth == 0 {
            Walk { depth: 1, keyed: c == '{', ..w }
        } else {
            Walk { depth: (w.depth + 1) as usize, ..w }
        }
    } else if c == '}' || c == ']' {
        if w.depth == 1 {
            Walk { depth: 0, shape: ShapeView { end: (i + 1) as usize, ..w.shape }, ..w }
        } else if w.depth > 1 {
            Walk { depth: (w.depth - 1) as usize, ..w }
        } else {
            w
        }
    } else if c == ',' && w.depth == 1 {
        Walk { keyed: true, ..w }
    } else {
        w
    }
}

/// What is known after the first `n` letters.
pub open spec fn walked(line: Seq<char>, n: nat) -> Walk
    decreases n,
{
    if n == 0 {
        at_start()
    } else {
        let w = walked(line, (n - 1) as nat);
        let (i, c) = ((n - 1) as usize, line[n - 1]);
        if w.quoted {
            quoted_step(w, i, c)
        } else {
            plain_step(w, i, c)
        }
    }
}

/// Where the fields of a line stand.
pub open spec fn shape_of(line: Seq<char>) -> ShapeView {
    walked(line, line.len()).shape
}

/// The places of a shape are places in its line.
spec fn is_within(shape: ShapeView, len: nat) -> bool {
    &&& shape.end <= len
    &&& forall|j: int|
        0 <= j < shape.keys.len() ==> (#[trigger] shape.keys[j]).0 <= shape.keys[j].1 <= len
}

fn find_shape(line: &Vec<char>) -> (r: Shape)
    ensures
        r@ == shape_of(line@),
        is_within(r@, line@.len()),
{
    let n: usize = line.len();
    let mut depth: usize = 0;
    let mut quoted = false;
    let mut escaped = false;
    let mut start: usize = 0;
    let mut keyed = false;
    let mut keys: Vec<(usize, usize)> = Vec::new();
    let mut end: usize = 0;
    let mut i: usize = 0;
    assert(keys@ =~= Seq::empty());
    while i < n
        invariant
            i <= n,
            n == line@.len(),
            depth <= i,
            start <= i,
            is_within(ShapeView { keys: keys@, end }, i as nat),
            walked(line@, i as nat) == (Walk {
                depth,
                quoted,
                escaped,
                start,
                keyed,
                shape: ShapeView { keys: keys@, end },
            }),
        decreases n - i,
    {
        let c = line[i];
        if quoted {
            if escaped {
                escaped = false;
            } else if c == '\\' {
                escaped = true;
            } else if c == '"' {
                quoted = false;
                if depth == 1 && keyed {
                    keys.push((start, i + 1));
                    keyed = false;
                }
            }
        } else if end > 0 {
            // Behind the closing bracket.
        } else if c == '"' {
            quoted = true;
            start = i;
        } else if c == '{' || c == '[' {
            if depth == 0 {
                keyed = c == '{';
            }
            depth += 1;
        } else if c == '}' || c == ']' {
            if depth == 1 {
                end = i + 1;
            }
            if depth > 0 {
                depth -= 1;
            }
        } else if c == ',' && depth == 1 {
            keyed = true;
        }
        i += 1;
    }
    Shape { keys, end }
}

/// A blank between the parts of a line.
pub open spec fn is_blank(c: char) -> bool {
    c == ' ' || c == '\t' || c == '\n' || c == '\r'
}

/// The first place from `at` where no blank stands.
pub open spec fn first_solid(line: Seq<char>, at: int) -> int
    decreases line.len() - at,
{
    if 0 <= at < line.len() && is_blank(line[at]) {
        first_solid(line, at + 1)
    } else {
        at
    }
}

/// How many bytes the first `at` letters take.
pub open spec fn column(line: Seq<char>, at: int) -> nat {
    encode_utf8(line.take(at)).len()
}

/// A message with its place.
pub open spec fn placed(e: Seq<char>, line: Seq<char>, at: int) -> Seq<char> {
    e + " at line 1 column "@ + decimal_of(
        column(
            line,
            if 0 <= at <= line.len() {
                at
            } else {
                0
            },
        ),
    )
}

/// The name that a key stands for.
pub open spec fn key_name(line: Seq<char>, key: (usize, usize)) -> Option<Seq<char>> {
    match json_string(line.subrange(key.0 as int, key.1 as int)) {
        Ok(s) => s,
        Err(e) => None,
    }
}

/// The number of the first key from `from` that stands for this name.
pub open spec fn key_of(
    line: Seq<char>,
    keys: Seq<(usize, usize)>,
    name: Seq<char>,
    from: nat,
) -> Option<nat>
    decreases keys.len() - from,
{
    if from >= keys.len() {
        None
    } else if key_name(line, keys[from as int]) == Some(name) {
        Some(from)
    } else {
        key_of(line, keys, name, from + 1)
    }
}

/// One of the fields of a frame.
pub open spec fn is_field(name: Seq<char>) -> bool {
    name == "timestamp"@ || name == "type"@ || name == "payload"@
}

/// Where reading stops behind a key: before the next letter, or behind a bracket that closes the
/// object.
pub open spec fn key_stop(line: Seq<char>, key: (usize, usize)) -> int {
    let at = first_solid(line, key.1 as int);
    if 0 <= at < line.len() && line[at] == '}' {
        at + 1
    } else {
        at
    }
}

/// Where the value of a key begins; nothing where no colon follows the key.
pub open spec fn value_at(line: Seq<char>, key: (usize, usize)) -> Option<int> {
    let at = first_solid(line, key.1 as int);
    if 0 <= at < line.len() && line[at] == ':' {
        Some(at + 1)
    } else {
        None
    }
}

/// Blanks.
pub open spec fn spaces(n: nat) -> Seq<char> {
    Seq::new(n, |i: int| ' ')
}

/// A line from `at` on, with a blank for each byte before: what stands there keeps its column.
pub open spec fn line_from(line: Seq<char>, at: int) -> Seq<char> {
    spaces(column(line, at)) + line.skip(at)
}

/// A line from `at` on within an array, in the same columns.
pub open spec fn nested_from(line: Seq<char>, at: int) -> Seq<char> {
    let n = column(line, at);
    spaces(
        (if n > 0 {
            n - 1
        } else {
            0
        }) as nat,
    ) + "["@ + line.skip(at)
}

/// A message that a value nests too deep.
pub open spec fn is_too_deep(e: Option<Seq<char>>) -> bool {
    e is Some && stands_at(e->0, "recursion limit exceeded"@, 0)
}

/// What is wrong with what a line carries from `at` on. It stands one level down in the line, so
/// that it may nest too deep in an array though not by itself.
pub open spec fn payload_fault(line: Seq<char>, at: int) -> Option<Seq<char>> {
    let nested = json_nested_fault(nested_from(line, at));
    if is_too_deep(nested) {
        nested
    } else {
        json_front_fault(line_from(line, at))
    }
}

/// What is wrong with the value of a field that begins at `at`.
pub open spec fn value_fault(line: Seq<char>, name: Seq<char>, at: int) -> Option<Seq<char>> {
    if name == "timestamp"@ {
        fault_in(json_front_string(line_from(line, at)))
    } else if name == "type"@ {
        fault_in(json_front_name(line_from(line, at)))
    } else {
        payload_fault(line, at)
    }
}

/// What is wrong with key number `j` and its value: the field has come before, or it is not what it
/// should be.
pub open spec fn key_fault(line: Seq<char>, keys: Seq<(usize, usize)>, j: nat) -> Option<Seq<char>> {
    let key = keys[j as int];
    match key_name(line, key) {
        Some(name) => if !is_field(name) {
            None
        } else if key_of(line, keys, name, 0) != Some(j) {
            Some(placed("duplicate field `"@ + name + "`"@, line, key_stop(line, key)))
        } else {
            match value_at(line, key) {
                Some(at) => value_fault(line, name, at),
                None => None,
            }
        },
        None => None,
    }
}

/// An object can be read up to this key, the key included.
pub open spec fn is_reached(line: Seq<char>, key: (usize, usize)) -> bool {
    ||| json_members(line) is Ok
    ||| json_members(line.take(key.1 as int) + ":null}"@) is Ok
}

/// The first fault in an object from key number `j` on, before its end: what makes the next key
/// unreadable, or what is wrong with that key and its value.
pub open spec fn named_fault(line: Seq<char>, keys: Seq<(usize, usize)>, j: nat) -> Option<Seq<char>>
    decreases keys.len() - j,
{
    if j >= keys.len() {
        None
    } else if !is_reached(line, keys[j as int]) {
        fault_in(json_members(line))
    } else if key_fault(line, keys, j) is Some {
        key_fault(line, keys, j)
    } else {
        named_fault(line, keys, j + 1)
    }
}

/// The text from which the value of a field is read; nothing where it is missing.
pub open spec fn field_text(
    line: Seq<char>,
    keys: Seq<(usize, usize)>,
    name: Seq<char>,
) -> Option<Seq<char>> {
    match key_of(line, keys, name, 0) {
        Some(j) => match value_at(line, keys[j as int]) {
            Some(at) => Some(line_from(line, at)),
            None => None,
        },
        None => None,
    }
}

/// The time that an object tells, where it does.
pub open spec fn named_time(line: Seq<char>, keys: Seq<(usize, usize)>) -> Option<Seq<char>> {
    match field_text(line, keys, "timestamp"@) {
        Some(t) => match json_front_string(t) {
            Ok(s) => s,
            Err(e) => None,
        },
        None => None,
    }
}

/// The kind that an object names, where it does.
pub open spec fn named_kind(line: Seq<char>, keys: Seq<(usize, usize)>) -> Option<Seq<char>> {
    match field_text(line, keys, "type"@) {
        Some(t) => match json_front_name(t) {
            Ok(s) => Some(s),
            Err(e) => None,
        },
        None => None,
    }
}

/// The frame that an object gives, or its first fault: on the way through its keys, then what it
/// lacks once it is closed, then what stands behind it.
pub open spec fn named_frame(line: Seq<char>) -> Result<FrameView, Seq<char>> {
    let shape = shape_of(line);
    if let Some(e) = named_fault(line, shape.keys, 0) {
        Err(e)
    } else {
        match json_members(line.take(shape.end as int)) {
            Err(e) => match json_members(line) {
                Err(f) => Err(f),
                Ok(members) => Err(e),
            },
            Ok(members) => match named_kind(line, shape.keys) {
                None => Err(placed("missing field `type`"@, line, shape.end as int)),
                Some(kind) => match member(members, "payload"@) {
                    None => Err(placed("missing field `payload`"@, line, shape.end as int)),
                    Some(payload) => match json_members(line) {
                        Err(e) => Err(e),
                        Ok(all) => Ok(
                            FrameView { timestamp: named_time(line, shape.keys), kind, payload },
                        ),
                    },
                },
            },
        }
    }
}

/// The last place up to `at` where a part stands in a text.
pub open spec fn last_at(whole: Seq<char>, part: Seq<char>, at: nat) -> Option<nat>
    decreases at,
{
    if stands_at(whole, part, at as int) {
        Some(at)
    } else if at == 0 {
        None
    } else {
        last_at(whole, part, (at - 1) as nat)
    }
}

/// A message that speaks of three values in an array told of a frame. The first of its fields may
/// be left out.
pub open spec fn told_of_frame(e: Seq<char>) -> Seq<char> {
    match last_at(e, "a tuple of size 3 at line "@, e.len()) {
        None => e,
        Some(i) => {
            let (head, tail) = (e.take(i as int), e.skip((i + "a tuple of size 3"@.len()) as int));
            if stands_at(head, "invalid length 0,"@, 0) {
                short_of(1, 3, "RolloutLine"@) + tail
            } else if stands_at(head, "invalid length "@, 0) {
                head + "struct RolloutLine with 3 elements"@ + tail
            } else {
                head + "struct RolloutLine"@ + tail
            }
        },
    }
}

/// The frame that an array gives, which lists the fields in order, or its first fault.
pub open spec fn listed_frame(line: Seq<char>) -> Result<FrameView, Seq<char>> {
    match json_triple(line) {
        Err(e) => Err(told_of_frame(e)),
        Ok(t) => Ok(
            FrameView { timestamp: t.0, kind: t.1, payload: json_elements(line)->0[2] },
        ),
    }
}

/// The frame of a line, or the fault that stands first in it. Each of its fields comes once at
/// most.
pub open spec fn frame_of(line: Seq<char>) -> Result<FrameView, Seq<char>> {
    let at = first_solid(line, 0);
    if at < line.len() && line[at] == '{' {
        named_frame(line)
    } else {
        listed_frame(line)
    }
}

fn blank(c: char) -> (r: bool)
    ensures
        r == is_blank(c),
{
    c == ' ' || c == '\t' || c == '\n' || c == '\r'
}

fn find_first_solid(line: &Vec<char>, at: usize) -> (r: usize)
    ensures
        r == first_solid(line@, at as int),
        at <= line@.len() ==> r <= line@.len(),
{
    let mut i: usize = at;
    while i < line.len() && blank(line[i])
        invariant
            at <= line@.len() ==> i <= line@.len(),
            first_solid(line@, at as int) == first_solid(line@, i as int),
        decreases line@.len() - i,
    {
        i += 1;
    }
    i
}

/// Puts the place behind a message.
fn place(e: &str, line: &str, at: usize) -> (r: String)
    ensures
        r@ == placed(e@, line@, at as int),
{
    let n: usize = if at <= line.unicode_len() {
        at
    } else {
        0
    };
    let head = text::part_of(line, 0, n);
    assert(head@ =~= line@.take(n as int));
    let mut r = text::join(e, " at line 1 column ");
    r.append(text::decimal(head.as_str().as_bytes().len() as u64).as_str());
    r
}

fn read_key(line: &str, key: (usize, usize)) -> (r: Option<String>)
    requires
        key.0 <= key.1 <= line@.len(),
    ensures
        r.deep_view() == key_name(line@, key),
{
    let raw = text::part_of(line, key.0, key.1);
    match outside::read_string(raw.as_str()) {
        Ok(s) => s,
        Err(e) => None,
    }
}

fn find_key(line: &str, shape: &Shape, name: &str) -> (r: Option<usize>)
    requires
        is_within(shape@, line@.len()),
    ensures
        match r {
            Some(j) => j < shape@.keys.len() && key_of(line@, shape@.keys, name@, 0) == Some(
                j as nat,
            ),
            None => key_of(line@, shape@.keys, name@, 0) is None,
        },
{
    let mut i: usize = 0;
    while i < shape.keys.len()
        invariant
            is_within(shape@, line@.len()),
            key_of(line@, shape@.keys, name@, 0) == key_of(line@, shape@.keys, name@, i as nat),
        decreases shape@.keys.len() - i,
    {
        assert(shape@.keys[i as int] == shape.keys@[i as int]);
        if let Some(s) = read_key(line, shape.keys[i]) {
            if text::same(s.as_str(), name) {
                return Some(i);
            }
        }
        i += 1;
    }
    None
}

fn find_value(letters: &Vec<char>, key: (usize, usize)) -> (r: Option<usize>)
    ensures
        match r {
            Some(at) => at <= letters@.len() && value_at(letters@, key) == Some(at as int),
            None => value_at(letters@, key) is None,
        },
{
    let at = find_first_solid(letters, key.1);
    if at < letters.len() && letters[at] == ':' {
        Some(at + 1)
    } else {
        None
    }
}

fn tell_spaces(n: usize) -> (r: String)
    ensures
        r@ == spaces(n as nat),
{
    let mut r = String::new();
    let mut i: usize = 0;
    assert(r@ =~= spaces(0));
    while i < n
        invariant
            i <= n,
            r@ == spaces(i as nat),
        decreases n - i,
    {
        r.append(" ");
        i += 1;
        proof {
            reveal_strlit(" ");
            assert(r@ =~= spaces(i as nat));
        }
    }
    r
}

/// How many bytes come before a place, and the line from there on.
fn split_at(line: &str, at: usize) -> (r: (usize, String))
    requires
        at <= line@.len(),
    ensures
        r.0 == column(line@, at as int),
        r.1@ == line@.skip(at as int),
{
    let head = text::part_of(line, 0, at);
    assert(head@ =~= line@.take(at as int));
    let tail = text::part_of(line, at, line.unicode_len());
    assert(tail@ =~= line@.skip(at as int));
    (head.as_str().as_bytes().len(), tail)
}

fn take_from(line: &str, at: usize) -> (r: String)
    requires
        at <= line@.len(),
    ensures
        r@ == line_from(line@, at as int),
{
    let (n, tail): (usize, String) = split_at(line, at);
    text::join(tell_spaces(n).as_str(), tail.as_str())
}

fn check_payload(line: &str, at: usize) -> (r: Option<String>)
    requires
        at <= line@.len(),
    ensures
        r.deep_view() == payload_fault(line@, at as int),
{
    let (n, tail): (usize, String) = split_at(line, at);
    let before: usize = if n > 0 {
        n - 1
    } else {
        0
    };
    let mut nested = tell_spaces(before);
    nested.append("[");
    nested.append(tail.as_str());
    if let Some(e) = outside::check_nested(nested.as_str()) {
        if text::starts_with(e.as_str(), "recursion limit exceeded") {
            return Some(e);
        }
    }
    outside::check_front(text::join(tell_spaces(n).as_str(), tail.as_str()).as_str())
}

fn check_value(line: &str, name: &str, at: usize) -> (r: Option<String>)
    requires
        at <= line@.len(),
    ensures
        r.deep_view() == value_fault(line@, name@, at as int),
{
    if text::same(name, "timestamp") {
        json::fault_of(&outside::read_front_string(take_from(line, at).as_str()))
    } else if text::same(name, "type") {
        json::fault_of(&outside::read_front_name(take_from(line, at).as_str()))
    } else {
        check_payload(line, at)
    }
}

fn check_key(line: &str, letters: &Vec<char>, shape: &Shape, j: usize) -> (r: Option<String>)
    requires
        letters@ == line@,
        is_within(shape@, line@.len()),
        j < shape@.keys.len(),
    ensures
        r.deep_view() == key_fault(line@, shape@.keys, j as nat),
{
    let key = shape.keys[j];
    assert(shape@.keys[j as int] == key);
    let name = match read_key(line, key) {
        Some(s) => s,
        None => return None,
    };
    if !(text::same(name.as_str(), "timestamp") || text::same(name.as_str(), "type") || text::same(
        name.as_str(),
        "payload",
    )) {
        return None;
    }
    let first = match find_key(line, shape, name.as_str()) {
        Some(i) => i == j,
        None => false,
    };
    if !first {
        let at: usize = find_first_solid(letters, key.1);
        let stop: usize = if at < letters.len() && letters[at] == '}' {
            at + 1
        } else {
            at
        };
        let mut e = text::join("duplicate field `", name.as_str());
        e.append("`");
        return Some(place(e.as_str(), line, stop));
    }
    match find_value(letters, key) {
        Some(at) => check_value(line, name.as_str(), at),
        None => None,
    }
}

fn reaches(line: &str, key: (usize, usize)) -> (r: bool)
    requires
        key.1 <= line@.len(),
    ensures
        r == (json_members(line@.take(key.1 as int) + ":null}"@) is Ok),
{
    let head = text::part_of(line, 0, key.1);
    assert(head@ =~= line@.take(key.1 as int));
    outside::read_members(text::join(head.as_str(), ":null}").as_str()).is_ok()
}

fn check_named(
    line: &str,
    letters: &Vec<char>,
    shape: &Shape,
    members: &Result<Vec<(String, String)>, String>,
) -> (r: Option<String>)
    requires
        letters@ == line@,
        is_within(shape@, line@.len()),
        told(*members) == json_members(line@),
    ensures
        r.deep_view() == named_fault(line@, shape@.keys, 0),
{
    let n: usize = shape.keys.len();
    let mut j: usize = 0;
    while j < n
        invariant
            j <= n,
            n == shape@.keys.len(),
            letters@ == line@,
            is_within(shape@, line@.len()),
            told(*members) == json_members(line@),
            named_fault(line@, shape@.keys, 0) == named_fault(line@, shape@.keys, j as nat),
        decreases n - j,
    {
        assert(shape@.keys[j as int] == shape.keys@[j as int]);
        if members.is_err() && !reaches(line, shape.keys[j]) {
            return json::fault_of(members);
        }
        if let Some(e) = check_key(line, letters, shape, j) {
            return Some(e);
        }
        j += 1;
    }
    None
}

fn find_field(line: &str, letters: &Vec<char>, shape: &Shape, name: &str) -> (r: Option<String>)
    requires
        letters@ == line@,
        is_within(shape@, line@.len()),
    ensures
        r.deep_view() == field_text(line@, shape@.keys, name@),
{
    match find_key(line, shape, name) {
        Some(j) => match find_value(letters, shape.keys[j]) {
            Some(at) => Some(take_from(line, at)),
            None => None,
        },
        None => None,
    }
}

fn read_named(line: &str, letters: &Vec<char>) -> (r: Result<Frame, String>)
    requires
        letters@ == line@,
    ensures
        told(r) == named_frame(line@),
{
    let shape = find_shape(letters);
    let whole = outside::read_members(line);
    if let Some(e) = check_named(line, letters, &shape, &whole) {
        return Err(e);
    }
    let object = text::part_of(line, 0, shape.end);
    assert(object@ =~= line@.take(shape.end as int));
    let members = match outside::read_members(object.as_str()) {
        Ok(m) => m,
        Err(e) => {
            return match whole {
                Err(f) => Err(f),
                Ok(m) => Err(e),
            };
        },
    };
    let timestamp = match find_field(line, letters, &shape, "timestamp") {
        Some(t) => match outside::read_front_string(t.as_str()) {
            Ok(s) => s,
            Err(e) => None,
        },
        None => None,
    };
    let kind = match find_field(line, letters, &shape, "type") {
        Some(t) => match outside::read_front_name(t.as_str()) {
            Ok(s) => Some(s),
            Err(e) => None,
        },
        None => None,
    };
    let kind = match kind {
        Some(k) => k,
        None => return Err(place("missing field `type`", line, shape.end)),
    };
    let payload = match find_member(&members, "payload") {
        Some(p) => p,
        None => return Err(place("missing field `payload`", line, shape.end)),
    };
    match whole {
        Err(e) => Err(e),
        Ok(m) => Ok(Frame { timestamp, kind, payload }),
    }
}

fn find_last_at(whole: &Vec<char>, part: &str) -> (r: Option<usize>)
    ensures
        match r {
            Some(i) => last_at(whole@, part@, whole@.len()) == Some(i as nat) && stands_at(
                whole@,
                part@,
                i as int,
            ),
            None => last_at(whole@, part@, whole@.len()) is None,
        },
{
    let mut i: usize = whole.len();
    loop
        invariant
            i <= whole@.len(),
            last_at(whole@, part@, whole@.len()) == last_at(whole@, part@, i as nat),
        decreases i,
    {
        if text::stands(whole, part, i) {
            return Some(i);
        }
        if i == 0 {
            return None;
        }
        i -= 1;
    }
}

fn tell_of_frame(e: String) -> (r: String)
    ensures
        r@ == told_of_frame(e@),
{
    let letters = text::letters(e.as_str());
    let n: usize = letters.len();
    let i: usize = match find_last_at(&letters, "a tuple of size 3 at line ") {
        Some(i) => i,
        None => return e,
    };
    proof {
        reveal_strlit("a tuple of size 3 at line ");
        reveal_strlit("a tuple of size 3");
        assert("a tuple of size 3 at line "@.len() > "a tuple of size 3"@.len());
        assert(i + "a tuple of size 3 at line "@.len() <= n);
    }
    let head = text::part_of(e.as_str(), 0, i);
    assert(head@ =~= e@.take(i as int));
    let from: usize = i + "a tuple of size 3".unicode_len();
    let tail = text::part_of(e.as_str(), from, n);
    assert(tail@ =~= e@.skip(from as int));
    let mut r = if text::starts_with(head.as_str(), "invalid length 0,") {
        tell_short(1, 3, "RolloutLine")
    } else if text::starts_with(head.as_str(), "invalid length ") {
        text::join(head.as_str(), "struct RolloutLine with 3 elements")
    } else {
        text::join(head.as_str(), "struct RolloutLine")
    };
    r.append(tail.as_str());
    r
}

fn read_listed(line: &str) -> (r: Result<Frame, String>)
    ensures
        told(r) == listed_frame(line@),
{
    match outside::read_triple(line) {
        Err(e) => Err(tell_of_frame(e)),
        Ok(t) => match outside::read_elements(line) {
            Some(list) => {
                assert(list.deep_view()[2] == list@[2]@);
                Ok(Frame { timestamp: t.0, kind: t.1, payload: list[2].clone() })
            },
            None => Err(String::new()),
        },
    }
}

/// Reads the frame of a line.
pub fn read_frame(line: &str) -> (r: Result<Frame, String>)
    ensures
        told(r) == frame_of(line@),
{
    let letters = text::letters(line);
    let at = find_first_solid(&letters, 0);
    if at < letters.len() && letters[at] == '{' {
        read_named(line, &letters)
    } else {
        read_listed(line)
    }
}

} // verus!
