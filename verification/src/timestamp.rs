//! The timestamp scalar: a calendar date and time of day held as plain
//! numbers, rendered as `DD-MM-YY HH:MM:SS`. Whatever produces timestamps
//! (a clock, a parsed date) converts to this type at the boundary.

use vstd::prelude::*;
use vstd::string::StringExecFns;

use crate::context::Context;
use crate::describe::Describe;
use crate::describe::leaf_headers;
use crate::text::dec_text;
use crate::text::digit_char;
use crate::text::push_u64;

verus! {

/// A number in at least two digits: zero-padded below ten, plain decimal
/// otherwise.
pub open spec fn two_digits(n: nat) -> Seq<char> {
    if n < 10 {
        seq!['0', digit_char(n)]
    } else {
        dec_text(n)
    }
}

/// A calendar date and time of day, as plain numbers.
#[derive(Clone, Copy, Debug)]
pub struct Timestamp {
    pub year: u64,
    pub month: u64,
    pub day: u64,
    pub hour: u64,
    pub minute: u64,
    pub second: u64,
}

impl Timestamp {
    /// The fixed `DD-MM-YY HH:MM:SS` text of a timestamp; the year keeps its
    /// last two digits.
    pub open spec fn spec_text(self) -> Seq<char> {
        two_digits(self.day as nat) + seq!['-'] + two_digits(self.month as nat) + seq!['-']
            + two_digits((self.year as nat) % 100) + seq![' '] + two_digits(self.hour as nat)
            + seq![':'] + two_digits(self.minute as nat) + seq![':'] + two_digits(
            self.second as nat,
        )
    }
}

fn push_two_digits(out: &mut String, n: u64)
    ensures
        final(out)@ == old(out)@ + two_digits(n as nat),
{
    if n < 10 {
        proof {
            reveal_strlit("0");
        }
        out.append("0");
        push_u64(out, n);
        proof {
            reveal_strlit("0");
            assert(old(out)@ + "0"@ + dec_text(n as nat) =~= old(out)@ + two_digits(n as nat));
        }
    } else {
        push_u64(out, n);
    }
}

impl Describe for Timestamp {
    open spec fn spec_to_field(&self, path: Seq<char>) -> Seq<char> {
        self.spec_text()
    }

    open spec fn spec_headers() -> Seq<Seq<char>> {
        Seq::empty()
    }

    open spec fn spec_default_headers() -> Seq<Seq<char>> {
        Seq::empty()
    }

    open spec fn spec_header_name(path: Seq<char>) -> Option<Seq<char>> {
        None
    }

    open spec fn spec_struct_pad() -> nat {
        0
    }

    open spec fn describe_pre(&self, ctx: Context) -> bool {
        ctx.value_ok()
    }

    open spec fn spec_describe(&self, ctx: Context) -> Seq<char> {
        ctx.value_text(self.spec_text())
    }

    fn to_field(&self, field_name: &str) -> (r: String) {
        let mut out = String::new();
        proof {
            reveal_strlit("-");
            reveal_strlit(" ");
            reveal_strlit(":");
        }
        push_two_digits(&mut out, self.day);
        out.append("-");
        push_two_digits(&mut out, self.month);
        out.append("-");
        push_two_digits(&mut out, self.year % 100);
        out.append(" ");
        push_two_digits(&mut out, self.hour);
        out.append(":");
        push_two_digits(&mut out, self.minute);
        out.append(":");
        push_two_digits(&mut out, self.second);
        proof {
            assert(out@ =~= self.spec_text());
        }
        out
    }

    fn headers() -> (r: Vec<String>) {
        leaf_headers()
    }

    fn default_headers() -> (r: Vec<String>) {
        leaf_headers()
    }

    fn header_name(header: &str) -> (r: Option<String>) {
        None
    }

    fn struct_pad() -> (r: usize) {
        0
    }

    fn describe(&self, writer: &mut String, ctx: Context) {
        let text = self.to_field("");
        ctx.write_value(writer, text);
    }
}

} // verus!
