//! Rules of the run configuration: quality levels and the argument grammar.

use vstd::prelude::*;
use vstd::string::*;

verus! {

/// The iteration cap that a quality level stands for. The levels 0 to 4 name
/// fixed caps; any other level is taken as the cap itself, by its magnitude.
pub open spec fn iterations_for_quality(quality: int) -> int {
    if quality == 0 {
        20
    } else if quality == 1 {
        500
    } else if quality == 2 {
        1000
    } else if quality == 3 {
        5000
    } else if quality == 4 {
        20000
    } else if quality < 0 {
        -quality
    } else {
        quality
    }
}

/// Maps a quality level to the iteration cap it stands for.
pub fn config_iter_from_quality(quality: i32) -> (iterations: u32)
    ensures
        iterations == iterations_for_quality(quality as int),
{
    match quality {
        0 => 20,
        1 => 500,
        2 => 1000,
        3 => 5000,
        4 => 20000,
        _ => {
            let wide: i64 = quality as i64;
            let magnitude: i64 = if wide < 0 { -wide } else { wide };
            magnitude as u32
        },
    }
}

/// A switch that an argument without a value turns on.
#[derive(Clone, Copy, Debug, PartialEq, Eq)]
pub enum Flag {
    /// Render an image file in place of text.
    Image,
    /// Report progress and timing.
    Debug,
}

/// A setting that takes a number.
#[derive(Clone, Copy, Debug, PartialEq, Eq)]
pub enum Property {
    /// The iteration cap, given as it is.
    Iterations,
    /// The escape threshold.
    Threshold,
    /// The width of the pixel grid.
    Width,
    /// The iteration cap, given as a quality level: the cap is what
    /// `config_iter_from_quality` makes of the level.
    Quality,
}

/// An argument that named no known property. The message holds the name.
#[derive(Clone, Debug, PartialEq, Eq)]
pub struct PropertyError {
    pub msg: String,
}

impl PropertyError {
    /// The message of the error.
    pub fn message(&self) -> (text: String)
        ensures
            text@ == self.msg@,
    {
        self.msg.clone()
    }
}

/// What one command-line argument asks for.
#[derive(Clone, Debug, PartialEq, Eq)]
pub enum Argument {
    /// A flag was given.
    Flag(Flag),
    /// The path of the image file was given.
    ImagePath(String),
    /// A value was given under `key`; `text` is to be read as a number.
    Number { key: String, text: String },
}

/// The mathematical content of an `Argument`.
pub enum ArgumentView {
    Flag(Flag),
    ImagePath(Seq<char>),
    Number { key: Seq<char>, text: Seq<char> },
}

impl View for Argument {
    type V = ArgumentView;

    open spec fn view(&self) -> ArgumentView {
        match *self {
            Argument::Flag(flag) => ArgumentView::Flag(flag),
            Argument::ImagePath(path) => ArgumentView::ImagePath(path@),
            Argument::Number { key, text } => ArgumentView::Number { key: key@, text: text@ },
        }
    }
}

/// The position of the first `=` of `s` at or after `from`; the length of
/// `s` where there is none.
pub open spec fn next_equals(s: Seq<char>, from: int) -> int
    decreases s.len() - from,
{
    if from < 0 || from >= s.len() {
        s.len() as int
    } else if s[from] == '=' {
        from
    } else {
        next_equals(s, from + 1)
    }
}

/// The key of an argument: what stands before its first `=`, or all of it.
pub open spec fn key_of(arg: Seq<char>) -> Seq<char> {
    arg.subrange(0, next_equals(arg, 0))
}

/// The value of an argument: what stands between its first `=` and its
/// second, or its end. An argument without `=` has no value.
pub open spec fn value_of(arg: Seq<char>) -> Option<Seq<char>> {
    let first = next_equals(arg, 0);
    if first == arg.len() {
        None
    } else {
        Some(arg.subrange(first + 1, next_equals(arg, first + 1)))
    }
}

/// The flag that a key names.
pub open spec fn flag_of(key: Seq<char>) -> Option<Flag> {
    if key == "img"@ || key == "image"@ {
        Some(Flag::Image)
    } else if key == "debug"@ || key == "dbg"@ {
        Some(Flag::Debug)
    } else {
        None
    }
}

/// The key names the path of the image file.
pub open spec fn is_path_key(key: Seq<char>) -> bool {
    key == "path"@ || key == "p"@
}

/// The numeric setting that a key names.
pub open spec fn property_of(key: Seq<char>) -> Option<Property> {
    if key == "iter"@ || key == "iterations"@ {
        Some(Property::Iterations)
    } else if key == "thres"@ || key == "threshold"@ {
        Some(Property::Threshold)
    } else if key == "w"@ || key == "width"@ {
        Some(Property::Width)
    } else if key == "quality"@ || key == "q"@ {
        Some(Property::Quality)
    } else {
        None
    }
}

/// The message for a value that is no number. It holds the whole argument.
pub open spec fn no_number(arg: Seq<char>) -> Seq<char> {
    "Error while parsing argument "@ + arg
}

/// The message for a key that names nothing.
pub open spec fn not_found(key: Seq<char>) -> Seq<char> {
    "Property not found: "@ + key
}

/// What an argument asks for, or the message of the error it gives. An
/// argument without a value must name a flag. One with a value sets the
/// image path where its key says so; any other is a number under its key.
pub open spec fn parsed(arg: Seq<char>) -> Result<ArgumentView, Seq<char>> {
    let key = key_of(arg);
    match value_of(arg) {
        None => match flag_of(key) {
            Some(flag) => Ok(ArgumentView::Flag(flag)),
            None => Err(not_found(key)),
        },
        Some(text) => if is_path_key(key) {
            Ok(ArgumentView::ImagePath(text))
        } else {
            Ok(ArgumentView::Number { key, text })
        },
    }
}

/// The characters of a string, in order.
fn chars_of(s: &str) -> (chars: Vec<char>)
    ensures
        chars@ == s@,
{
    let mut chars: Vec<char> = Vec::new();
    for c in it: s.chars()
        invariant
            it.seq() == s@,
            chars@ == s@.take(it.index() as int),
    {
        chars.push(c);
    }
    chars
}

/// Finds the first `=` at or after `from`.
fn find_equals(chars: &Vec<char>, from: usize) -> (at: usize)
    requires
        from <= chars.len(),
    ensures
        at == next_equals(chars@, from as int),
        from <= at <= chars.len(),
{
    let mut at: usize = from;
    while at < chars.len() && chars[at] != '='
        invariant
            from <= at <= chars.len(),
            next_equals(chars@, from as int) == next_equals(chars@, at as int),
        decreases chars.len() - at,
    {
        at = at + 1;
    }
    at
}

/// Whether two strings hold the same characters.
fn same_text(a: &str, b: &str) -> (same: bool)
    ensures
        same == (a@ == b@),
{
    String::from_str(a) == String::from_str(b)
}

/// Splits an argument at its `=` signs into its key and, where it has one,
/// its value.
pub fn split_argument(arg: &str) -> (parts: (String, Option<String>))
    ensures
        parts.0@ == key_of(arg@),
        match parts.1 {
            Some(value) => value_of(arg@) == Some(value@),
            None => value_of(arg@) is None,
        },
{
    let chars = chars_of(arg);
    let first = find_equals(&chars, 0);
    let key = String::from_str(arg.substring_char(0, first));
    if first == chars.len() {
        (key, None)
    } else {
        let second = find_equals(&chars, first + 1);
        let value = String::from_str(arg.substring_char(first + 1, second));
        (key, Some(value))
    }
}

/// Builds the error for a key that names nothing.
fn property_not_found(key: &str) -> (error: PropertyError)
    ensures
        error.msg@ == not_found(key@),
{
    let mut msg = String::from_str("Property not found: ");
    msg.append(key);
    PropertyError { msg }
}

/// Looks up the flag that a key names.
pub fn flag_for_key(key: &str) -> (result: Result<Flag, PropertyError>)
    ensures
        match result {
            Ok(flag) => flag_of(key@) == Some(flag),
            Err(error) => flag_of(key@) is None && error.msg@ == not_found(key@),
        },
{
    if same_text(key, "img") || same_text(key, "image") {
        Ok(Flag::Image)
    } else if same_text(key, "debug") || same_text(key, "dbg") {
        Ok(Flag::Debug)
    } else {
        Err(property_not_found(key))
    }
}

/// Looks up the numeric setting that a key names.
pub fn property_for_key(key: &str) -> (result: Result<Property, PropertyError>)
    ensures
        match result {
            Ok(property) => property_of(key@) == Some(property),
            Err(error) => property_of(key@) is None && error.msg@ == not_found(key@),
        },
{
    if same_text(key, "iter") || same_text(key, "iterations") {
        Ok(Property::Iterations)
    } else if same_text(key, "thres") || same_text(key, "threshold") {
        Ok(Property::Threshold)
    } else if same_text(key, "w") || same_text(key, "width") {
        Ok(Property::Width)
    } else if same_text(key, "quality") || same_text(key, "q") {
        Ok(Property::Quality)
    } else {
        Err(property_not_found(key))
    }
}

/// Builds the error for an argument whose value is no number.
pub fn value_error(arg: &str) -> (error: PropertyError)
    ensures
        error.msg@ == no_number(arg@),
{
    let mut msg = String::from_str("Error while parsing argument ");
    msg.append(arg);
    PropertyError { msg }
}

/// Reads one command-line argument.
pub fn parse_argument(arg: &str) -> (result: Result<Argument, PropertyError>)
    ensures
        match result {
            Ok(argument) => parsed(arg@) == Ok::<ArgumentView, Seq<char>>(argument@),
            Err(error) => parsed(arg@) == Err::<ArgumentView, Seq<char>>(error.msg@),
        },
{
    let (key, value) = split_argument(arg);
    match value {
        None => match flag_for_key(key.as_str()) {
            Ok(flag) => Ok(Argument::Flag(flag)),
            Err(error) => Err(error),
        },
        Some(text) => if same_text(key.as_str(), "path") || same_text(key.as_str(), "p") {
            Ok(Argument::ImagePath(text))
        } else {
            Ok(Argument::Number { key, text })
        },
    }
}

} // verus!
