//! The numeric scalar adapters: every built-in integer type renders as its
//! decimal text and behaves as a leaf (no headers, no padding needs).

use vstd::prelude::*;

use crate::context::Context;
use crate::describe::Describe;
use crate::describe::leaf_headers;
use crate::text::i64_string;
use crate::text::int_text;
use crate::text::u64_string;

verus! {

impl Describe for i16 {
    open spec fn spec_to_field(&self, path: Seq<char>) -> Seq<char> {
        int_text(*self as int)
    }

    open spec fn spec_headers() -> Seq<Seq<char>> {
        Seq::empty()
    }

    open spec fn spec_default_headers() -> Seq<Seq<char>> {
        Seq::empty()
    }

    open spec fn spec_header_name(path: Seq<char>) -> Option<Seq<char>> {
        None
    }

    open spec fn spec_struct_pad() -> nat {
        0
    }

    open spec fn describe_pre(&self, ctx: Context) -> bool {
        ctx.value_ok()
    }

    open spec fn spec_describe(&self, ctx: Context) -> Seq<char> {
        ctx.value_text(int_text(*self as int))
    }

    fn to_field(&self, field_name: &str) -> (r: String) {
        i64_string(*self as i64)
    }

    fn headers() -> (r: Vec<String>) {
        leaf_headers()
    }

    fn default_headers() -> (r: Vec<String>) {
        leaf_headers()
    }

    fn header_name(header: &str) -> (r: Option<String>) {
        None
    }

    fn struct_pad() -> (r: usize) {
        0
    }

    fn describe(&self, writer: &mut String, ctx: Context) {
        let text = self.to_field("");
        ctx.write_value(writer, text);
    }
}

impl Describe for i32 {
    open spec fn spec_to_field(&self, path: Seq<char>) -> Seq<char> {
        int_text(*self as int)
    }

    open spec fn spec_headers() -> Seq<Seq<char>> {
        Seq::empty()
    }

    open spec fn spec_default_headers() -> Seq<Seq<char>> {
        Seq::empty()
    }

    open spec fn spec_header_name(path: Seq<char>) -> Option<Seq<char>> {
        None
    }

    open spec fn spec_struct_pad() -> nat {
        0
    }

    open spec fn describe_pre(&self, ctx: Context) -> bool {
        ctx.value_ok()
    }

    open spec fn spec_describe(&self, ctx: Context) -> Seq<char> {
        ctx.value_text(int_text(*self as int))
    }

    fn to_field(&self, field_name: &str) -> (r: String) {
        i64_string(*self as i64)
    }

    fn headers() -> (r: Vec<String>) {
        leaf_headers()
    }

    fn default_headers() -> (r: Vec<String>) {
        leaf_headers()
    }

    fn header_name(header: &str) -> (r: Option<String>) {
        None
    }

    fn struct_pad() -> (r: usize) {
        0
    }

    fn describe(&self, writer: &mut String, ctx: Context) {
        let text = self.to_field("");
        ctx.write_value(writer, text);
    }
}

impl Describe for i64 {
    open spec fn spec_to_field(&self, path: Seq<char>) -> Seq<char> {
        int_text(*self as int)
    }

    open spec fn spec_headers() -> Seq<Seq<char>> {
        Seq::empty()
    }

    open spec fn spec_default_headers() -> Seq<Seq<char>> {
        Seq::empty()
    }

    open spec fn spec_header_name(path: Seq<char>) -> Option<Seq<char>> {
        None
    }

    open spec fn spec_struct_pad() -> nat {
        0
    }

    open spec fn describe_pre(&self, ctx: Context) -> bool {
        ctx.value_ok()
    }

    open spec fn spec_describe(&self, ctx: Context) -> Seq<char> {
        ctx.value_text(int_text(*self as int))
    }

    fn to_field(&self, field_name: &str) -> (r: String) {
        i64_string(*self as i64)
    }

    fn headers() -> (r: Vec<String>) {
        leaf_headers()
    }

    fn default_headers() -> (r: Vec<String>) {
        leaf_headers()
    }

    fn header_name(header: &str) -> (r: Option<String>) {
        None
    }

    fn struct_pad() -> (r: usize) {
        0
    }

    fn describe(&self, writer: &mut String, ctx: Context) {
        let text = self.to_field("");
        ctx.write_value(writer, text);
    }
}

impl Describe for u16 {
    open spec fn spec_to_field(&self, path: Seq<char>) -> Seq<char> {
        int_text(*self as int)
    }

    open spec fn spec_headers() -> Seq<Seq<char>> {
        Seq::empty()
    }

    open spec fn spec_default_headers() -> Seq<Seq<char>> {
        Seq::empty()
    }

    open spec fn spec_header_name(path: Seq<char>) -> Option<Seq<char>> {
        None
    }

    open spec fn spec_struct_pad() -> nat {
        0
    }

    open spec fn describe_pre(&self, ctx: Context) -> bool {
        ctx.value_ok()
    }

    open spec fn spec_describe(&self, ctx: Context) -> Seq<char> {
        ctx.value_text(int_text(*self as int))
    }

    fn to_field(&self, field_name: &str) -> (r: String) {
        u64_string(*self as u64)
    }

    fn headers() -> (r: Vec<String>) {
        leaf_headers()
    }

    fn default_headers() -> (r: Vec<String>) {
        leaf_headers()
    }

    fn header_name(header: &str) -> (r: Option<String>) {
        None
    }

    fn struct_pad() -> (r: usize) {
        0
    }

    fn describe(&self, writer: &mut String, ctx: Context) {
        let text = self.to_field("");
        ctx.write_value(writer, text);
    }
}

impl Describe for u32 {
    open spec fn spec_to_field(&self, path: Seq<char>) -> Seq<char> {
        int_text(*self as int)
    }

    open spec fn spec_headers() -> Seq<Seq<char>> {
        Seq::empty()
    }

    open spec fn spec_default_headers() -> Seq<Seq<char>> {
        Seq::empty()
    }

    open spec fn spec_header_name(path: Seq<char>) -> Option<Seq<char>> {
        None
    }

    open spec fn spec_struct_pad() -> nat {
        0
    }

    open spec fn describe_pre(&self, ctx: Context) -> bool {
        ctx.value_ok()
    }

    open spec fn spec_describe(&self, ctx: Context) -> Seq<char> {
        ctx.value_text(int_text(*self as int))
    }

    fn to_field(&self, field_name: &str) -> (r: String) {
        u64_string(*self as u64)
    }

    fn headers() -> (r: Vec<String>) {
        leaf_headers()
    }

    fn default_headers() -> (r: Vec<String>) {
        leaf_headers()
    }

    fn header_name(header: &str) -> (r: Option<String>) {
        None
    }

    fn struct_pad() -> (r: usize) {
        0
    }

    fn describe(&self, writer: &mut String, ctx: Context) {
        let text = self.to_field("");
        ctx.write_value(writer, text);
    }
}

impl Describe for u64 {
    open spec fn spec_to_field(&self, path: Seq<char>) -> Seq<char> {
        int_text(*self as int)
    }

    open spec fn spec_headers() -> Seq<Seq<char>> {
        Seq::empty()
    }

    open spec fn spec_default_headers() -> Seq<Seq<char>> {
        Seq::empty()
    }

    open spec fn spec_header_name(path: Seq<char>) -> Option<Seq<char>> {
        None
    }

    open spec fn spec_struct_pad() -> nat {
        0
    }

    open spec fn describe_pre(&self, ctx: Context) -> bool {
        ctx.value_ok()
    }

    open spec fn spec_describe(&self, ctx: Context) -> Seq<char> {
        ctx.value_text(int_text(*self as int))
    }

    fn to_field(&self, field_name: &str) -> (r: String) {
        u64_string(*self as u64)
    }

    fn headers() -> (r: Vec<String>) {
        leaf_headers()
    }

    fn default_headers() -> (r: Vec<String>) {
        leaf_headers()
    }

    fn header_name(header: &str) -> (r: Option<String>) {
        None
    }

    fn struct_pad() -> (r: usize) {
        0
    }

    fn describe(&self, writer: &mut String, ctx: Context) {
        let text = self.to_field("");
        ctx.write_value(writer, text);
    }
}

impl Describe for usize {
    open spec fn spec_to_field(&self, path: Seq<char>) -> Seq<char> {
        int_text(*self as int)
    }

    open spec fn spec_headers() -> Seq<Seq<char>> {
        Seq::empty()
    }

    open spec fn spec_default_headers() -> Seq<Seq<char>> {
        Seq::empty()
    }

    open spec fn spec_header_name(path: Seq<char>) -> Option<Seq<char>> {
        None
    }

    open spec fn spec_struct_pad() -> nat {
        0
    }

    open spec fn describe_pre(&self, ctx: Context) -> bool {
        ctx.value_ok()
    }

    open spec fn spec_describe(&self, ctx: Context) -> Seq<char> {
        ctx.value_text(int_text(*self as int))
    }

    fn to_field(&self, field_name: &str) -> (r: String) {
        u64_string(*self as u64)
    }

    fn headers() -> (r: Vec<String>) {
        leaf_headers()
    }

    fn default_headers() -> (r: Vec<String>) {
        leaf_headers()
    }

    fn header_name(header: &str) -> (r: Option<String>) {
        None
    }

    fn struct_pad() -> (r: usize) {
        0
    }

    fn describe(&self, writer: &mut String, ctx: Context) {
        let text = self.to_field("");
        ctx.write_value(writer, text);
    }
}

} // verus!
