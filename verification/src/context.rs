//! The per-call layout state threaded through the recursive object layout:
//! indentation offset, label-column padding, and array (bulleted) mode.
//!
//! A `Context` is a value: every transform returns a fresh one, so recursive
//! calls never share or mutate layout state.

use vstd::prelude::*;
use vstd::string::StringExecFns;

use crate::text::push_spaces;
use crate::text::spaces;

verus! {

/// Layout state for one recursive rendering call.
///
/// `offset` is the current left indentation in characters; `pad` is the label
/// column width that values are aligned to; `upper_pad` is a pending width a
/// parent proposes for its child's rows; `is_array` marks an element inside a
/// sequence (bulleted emission); `title_size` is the width already consumed by
/// the label written on the current line.
#[derive(Clone, Copy, Debug)]
pub struct Context {
    pub offset: usize,
    pub pad: usize,
    pub upper_pad: usize,
    pub is_array: bool,
    pub title_size: usize,
}

impl Default for Context {
    /// The state a top-level render starts from: no indentation, no padding.
    fn default() -> (r: Self)
        ensures
            r == Context::start(),
    {
        Context { offset: 0, pad: 0, upper_pad: 0, is_array: false, title_size: 0 }
    }
}

impl Context {
    /// The layout state of a top-level render.
    pub open spec fn start() -> Context {
        Context { offset: 0, pad: 0, upper_pad: 0, is_array: false, title_size: 0 }
    }

    /// What `pad` returns: line-local state reset, the padding floor raised.
    pub open spec fn spec_pad(self, upper_pad: nat) -> Context {
        Context {
            offset: self.offset,
            upper_pad: if self.upper_pad as nat >= upper_pad {
                self.upper_pad
            } else {
                upper_pad as usize
            },
            pad: 0,
            title_size: 0,
            is_array: false,
        }
    }

    /// Reset line-local state and propose a padding floor for the rows that
    /// follow (used when a child's fields are inlined into this level).
    pub fn pad(&self, upper_pad: usize) -> (r: Self)
        ensures
            r == self.spec_pad(upper_pad as nat),
    {
        Self {
            offset: self.offset,
            upper_pad: if self.upper_pad >= upper_pad {
                self.upper_pad
            } else {
                upper_pad
            },
            pad: 0,
            title_size: 0,
            is_array: false,
        }
    }

    /// What `indent` returns: one level deeper, padding merged with the
    /// parent's proposal.
    pub open spec fn spec_indent(self, pad: nat, title_size: nat) -> Context {
        Context {
            offset: (self.offset + 2) as usize,
            pad: if pad >= self.upper_pad as nat {
                pad as usize
            } else {
                self.upper_pad
            },
            upper_pad: 0,
            title_size: title_size as usize,
            is_array: false,
        }
    }

    /// Descend one nesting level: two more spaces of indentation, and a label
    /// column of `pad` characters (or the parent's proposal, whichever is
    /// wider) out of which `title_size` are already used by the label.
    pub fn indent(&self, pad: usize, title_size: usize) -> (r: Self)
        requires
            self.offset + 2 <= usize::MAX,
        ensures
            r == self.spec_indent(pad as nat, title_size as nat),
    {
        Self {
            offset: self.offset + 2,
            pad: if pad >= self.upper_pad {
                pad
            } else {
                self.upper_pad
            },
            upper_pad: 0,
            title_size,
            is_array: false,
        }
    }

    /// What `array` returns: array mode at the same offset and padding.
    pub open spec fn spec_array(self) -> Context {
        Context {
            offset: self.offset,
            pad: self.pad,
            title_size: 0,
            upper_pad: 0,
            is_array: true,
        }
    }

    /// Mark the current value as an element inside a sequence, keeping offset
    /// and padding: each element is emitted on its own bulleted line.
    pub fn array(&self) -> (r: Self)
        ensures
            r == self.spec_array(),
    {
        Self {
            offset: self.offset,
            pad: self.pad,
            title_size: 0,
            upper_pad: 0,
            is_array: true,
        }
    }

    /// What `indent_and_table` returns: one level deeper, in array mode, with
    /// padding cleared for an embedded table region.
    pub open spec fn spec_indent_and_table(self) -> Context {
        Context {
            offset: (self.offset + 2) as usize,
            pad: 0,
            upper_pad: 0,
            title_size: 0,
            is_array: true,
        }
    }

    /// Descend one level and switch into table mode, for a field rendered as
    /// an embedded table.
    pub fn indent_and_table(&self) -> (r: Self)
        requires
            self.offset + 2 <= usize::MAX,
        ensures
            r == self.spec_indent_and_table(),
    {
        Self {
            offset: self.offset + 2,
            pad: 0,
            upper_pad: 0,
            title_size: 0,
            is_array: true,
        }
    }

    /// The text `write_title` emits: a newline, then either a dedented bullet
    /// introducing the first field of an array element, or the field label at
    /// the current offset; the label is always followed by a colon.
    pub open spec fn title_text(self, field: Seq<char>, first_field: bool) -> Seq<char> {
        if first_field && self.is_array {
            seq!['\n'] + spaces((self.offset - 2) as nat) + seq!['-', ' '] + field + seq![':']
        } else {
            seq!['\n'] + spaces(self.offset as nat) + field + seq![':']
        }
    }

    /// Write a field title line: `"<label>:"` at the current offset, bulleted
    /// and dedented when it opens an array element.
    pub fn write_title(&self, writer: &mut String, field: &str, first_field: bool)
        requires
            first_field && self.is_array ==> self.offset >= 2,
        ensures
            final(writer)@ == old(writer)@ + self.title_text(field@, first_field),
    {
        proof {
            reveal_strlit("\n");
            reveal_strlit("- ");
            reveal_strlit(":");
        }
        writer.append("\n");
        if first_field && self.is_array {
            push_spaces(writer, self.offset - 2);
            writer.append("- ");
            writer.append(field);
            writer.append(":");
            proof {
                assert(final(writer)@ =~= old(writer)@ + self.title_text(field@, first_field));
            }
        } else {
            push_spaces(writer, self.offset);
            writer.append(field);
            writer.append(":");
            proof {
                assert(final(writer)@ =~= old(writer)@ + self.title_text(field@, first_field));
            }
        }
    }

    /// The text `write_value` emits: a bulleted line at the enclosing offset
    /// in array mode, else the value aligned to the label column.
    pub open spec fn value_text(self, field: Seq<char>) -> Seq<char> {
        if self.is_array {
            seq!['\n'] + spaces((self.offset - 2) as nat) + seq!['-', ' '] + field
        } else {
            spaces((self.pad - self.title_size) as nat) + field
        }
    }

    /// The layout conditions under which a plain value can be written: array
    /// mode needs two columns for the bullet, aligned mode needs the label to
    /// fit inside the label column.
    pub open spec fn value_ok(self) -> bool {
        &&& self.is_array ==> self.offset >= 2
        &&& !self.is_array ==> self.title_size <= self.pad
    }

    /// Write a plain value: on its own bulleted line in array mode, otherwise
    /// padded so that values of sibling fields align.
    pub fn write_value(&self, writer: &mut String, field: String)
        requires
            self.value_ok(),
        ensures
            final(writer)@ == old(writer)@ + self.value_text(field@),
    {
        if self.is_array {
            proof {
                reveal_strlit("\n");
                reveal_strlit("- ");
            }
            writer.append("\n");
            push_spaces(writer, self.offset - 2);
            writer.append("- ");
            writer.append(field.as_str());
            proof {
                assert(final(writer)@ =~= old(writer)@ + self.value_text(field@));
            }
        } else {
            push_spaces(writer, self.pad - self.title_size);
            writer.append(field.as_str());
            proof {
                assert(final(writer)@ =~= old(writer)@ + self.value_text(field@));
            }
        }
    }
}

} // verus!
