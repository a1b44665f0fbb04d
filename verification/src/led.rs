//! The brightness file of the backlight: where it is, what its content means and what is
//! written to it.

use crate::decimal::{parse_number, render_number};
use crate::path::join_path;
use crate::text::trim;
use vstd::prelude::*;

#[allow(unused_imports)]
use crate::decimal::{
    all_digits, decimal, is_digit, law_decimal_reads_back, law_numbers_are_in_bounds, lemma_decimal,
    number_in,
};
#[allow(unused_imports)]
use crate::path::joined;
#[allow(unused_imports)]
use crate::text::{all_white, bare, law_trimming, trim_back, trim_front, trimmed};

verus! {

/// The level that the content of a brightness file stands for: a decimal number up to 255,
/// with any white space around it.
pub open spec fn level_in(content: Seq<char>) -> Option<u8> {
    match number_in(trimmed(content), 255) {
        Some(n) => Some(n as u8),
        None => None,
    }
}

/// What is written to the brightness file to set a level: the number and a line feed.
pub open spec fn level_content(level: u8) -> Seq<char> {
    decimal(level as int).push('\n')
}

/// The backlight's directory.
pub struct Led {
    pub dir: String,
}

impl Led {
    /// The path of the file that holds the brightness.
    pub fn brightness_path(&self) -> (path: String)
        ensures
            path@ == joined(self.dir@, "brightness"@),
    {
        join_path(self.dir.as_str(), "brightness")
    }

    /// The level that was read, given the file's content, or `None` where it could not be read.
    /// A file that does not hold a level counts as not read.
    pub fn read(content: &Option<String>) -> (level: Option<u8>)
        ensures
            level == (match content {
                Some(text) => level_in(text@),
                None => None,
            }),
    {
        match content {
            None => None,
            Some(text) => {
                match parse_number(&trim(text.as_str()), 255) {
                    None => None,
                    Some(n) => Some(n as u8),
                }
            },
        }
    }

    /// The content to write to the file to set a level.
    pub fn write(value: u8) -> (content: String)
        ensures
            content@ == level_content(value),
    {
        let mut content = render_number(value as u64);
        proof {
            reveal_strlit("\n");
        }
        content.append("\n");
        assert(content@ == level_content(value));
        content
    }
}

proof fn lemma_trim_digits(text: Seq<char>)
    requires
        all_digits(text),
        text.len() > 0,
    ensures
        trimmed(text.push('\n')) == text,
{
    let line = text.push('\n');
    assert(is_digit(text[0]));
    assert(line[0] == text[0]);
    assert(trim_front(line) == line);
    assert(line.drop_last() == text);
    assert(is_digit(text[text.len() - 1]));
    assert(trim_back(text) == text);
}

/// The content written for a level reads back as that level.
pub proof fn law_written_level_reads_back(level: u8)
    ensures
        level_in(level_content(level)) == Some(level),
{
    lemma_decimal(level as int);
    lemma_trim_digits(decimal(level as int));
    law_decimal_reads_back(level as int, 255);
}

/// The content of the brightness file stands for the number in it, with or without white space
/// around it, where that is a number up to 255, and for no level else.
pub proof fn law_level_is_the_number_inside(
    before: Seq<char>,
    inner: Seq<char>,
    after: Seq<char>,
)
    requires
        all_white(before),
        all_white(after),
        bare(inner),
    ensures
        match number_in(inner, 255) {
            Some(n) => 0 <= n <= 255 && level_in(before + inner + after) == Some(n as u8),
            None => level_in(before + inner + after) is None,
        },
{
    law_trimming(before, inner, after);
    law_numbers_are_in_bounds(inner, 255);
}

/// A level is written as a number in decimal and the end of a line.
pub proof fn law_level_is_written_as_a_line(level: u8)
    ensures
        level_content(level) == decimal(level as int) + seq!['\n'],
{
}

} // verus!
