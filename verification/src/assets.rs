//! The asset tool: it turns the files of a directory into the source of a
//! module `Assets` with one accessor per file, and reports what a build
//! printed.
//!
//! In development mode an accessor reads its file from disk when it is
//! called; in release mode the bytes of the file stand in the source.

use vstd::prelude::*;
use vstd::string::*;
use crate::server::text;

verus! {

/// A file of the asset directory.
pub struct AssetFile {
    pub file_name: String,
    pub contents: Vec<u8>,
}

/// The upper-case form of a text.
pub uninterp spec fn uppercase(s: Seq<char>) -> Seq<char>;

/// The lower-case form of a text.
pub uninterp spec fn lowercase(s: Seq<char>) -> Seq<char>;

/// Trusted: names what std's `str::to_uppercase` returns; the result is a
/// function of the text alone.
#[verifier::external_body]
fn to_uppercase(s: &str) -> (r: String)
    ensures
        r@ == uppercase(s@),
{
    s.to_uppercase()
}

/// Trusted: names what std's `str::to_lowercase` returns; the result is a
/// function of the text alone.
#[verifier::external_body]
fn to_lowercase(s: &str) -> (r: String)
    ensures
        r@ == lowercase(s@),
{
    s.to_lowercase()
}

/// What stands before the first point of `name`.
pub open spec fn stem(name: Seq<char>) -> Seq<char> {
    name.take(text::find(name, '.', 0))
}

/// `s` ends with `suffix`.
pub open spec fn ends_with(s: Seq<char>, suffix: Seq<char>) -> bool {
    suffix.len() <= s.len() && s.skip(s.len() - suffix.len()) == suffix
}

/// `s` begins with `prefix`.
pub open spec fn starts_with(s: Seq<char>, prefix: Seq<char>) -> bool {
    prefix.len() <= s.len() && s.take(prefix.len() as int) == prefix
}

/// The directory with the delimiter behind it, put there unless the
/// directory ends with it.
pub open spec fn location(assets_dir: Seq<char>, delimiter: Seq<char>) -> Seq<char> {
    if ends_with(assets_dir, delimiter) {
        assets_dir
    } else {
        assets_dir + delimiter
    }
}

/// The bytes `contents` as the elements of an array in source text.
pub open spec fn byte_list(contents: Seq<u8>) -> Seq<char>
    decreases contents.len(),
{
    if contents.len() == 0 {
        Seq::empty()
    } else {
        byte_list(contents.drop_last()) + text::decimal(contents.last() as nat) + ",\n\t\t"@
    }
}

/// The source of the accessor of one file: in release mode a constant
/// `K_<constant>` with the bytes and a function `<function>` that copies it,
/// in development mode a function that reads `<location><file_name>`.
pub open spec fn accessor_text(
    constant: Seq<char>,
    function: Seq<char>,
    location: Seq<char>,
    file_name: Seq<char>,
    contents: Seq<u8>,
    dev_mode: bool,
) -> Seq<char> {
    if dev_mode {
        "\tpub fn "@ + function + "() -> Vec<u8> {\n"@ + "\t\treturn read(\""@ + location
            + file_name + "\").unwrap()"@ + ";\n\t}\n\n"@
    } else {
        "\tconst K_"@ + constant + ":&'static [u8] = &["@ + byte_list(contents) + "];\n\n"@
            + "\tpub fn "@ + function + "() -> Vec<u8> {\n"@ + "\t\treturn Assets::K_"@ + constant
            + ".to_vec()"@ + ";\n\t}\n\n"@
    }
}

/// The name of the constant of a file: what stands before the first point of
/// its name in upper case.
pub open spec fn constant_name(file_name: Seq<char>) -> Seq<char> {
    stem(uppercase(file_name))
}

/// The name of the accessor of a file: the name of its constant in lower
/// case.
pub open spec fn function_name(file_name: Seq<char>) -> Seq<char> {
    lowercase(constant_name(file_name))
}

/// The accessors of `files`, one after the other.
pub open spec fn accessors_text(files: Seq<AssetFile>, location: Seq<char>, dev_mode: bool) -> Seq<
    char,
>
    decreases files.len(),
{
    if files.len() == 0 {
        Seq::empty()
    } else {
        accessors_text(files.drop_last(), location, dev_mode) + accessor_text(
            constant_name(files.last().file_name@),
            function_name(files.last().file_name@),
            location,
            files.last().file_name@,
            files.last().contents@,
            dev_mode,
        )
    }
}

/// The source of the module `Assets` for `files`.
pub open spec fn module_text(
    files: Seq<AssetFile>,
    assets_dir: Seq<char>,
    delimiter: Seq<char>,
    dev_mode: bool,
) -> Seq<char> {
    let opening = if dev_mode {
        "use std::fs::read;\n"@
    } else {
        Seq::empty()
    };
    opening + "pub struct Assets;\nimpl Assets {\n"@ + accessors_text(
        files,
        location(assets_dir, delimiter),
        dev_mode,
    ) + "}"@
}

/// What stands before the first point of `name`.
pub fn stem_of(name: &str) -> (s: String)
    ensures
        s@ == stem(name@),
{
    let chars = text::chars_of(name);
    let mut i: usize = 0;
    while i < chars.len() && chars[i] != '.'
        invariant
            i <= chars.len(),
            text::find(chars@, '.', 0) == text::find(chars@, '.', i as int),
        decreases chars.len() - i,
    {
        i += 1;
    }
    let s = text::string_of(&chars, 0, i);
    assert(chars@.subrange(0, i as int) =~= chars@.take(i as int));
    s
}

/// Whether `s` ends with `suffix`.
pub fn has_suffix(s: &str, suffix: &str) -> (r: bool)
    ensures
        r == ends_with(s@, suffix@),
{
    let a = text::chars_of(s);
    let b = text::chars_of(suffix);
    if b.len() > a.len() {
        return false;
    }
    let offset = a.len() - b.len();
    let mut i: usize = 0;
    while i < b.len()
        invariant
            i <= b.len(),
            offset + b.len() == a.len(),
            a@ == s@,
            b@ == suffix@,
            a@.skip(offset as int).take(i as int) == b@.take(i as int),
        decreases b.len() - i,
    {
        if a[offset + i] != b[i] {
            assert(a@.skip(offset as int)[i as int] == a@[offset + i]);
            assert(a@.skip(offset as int) != b@);
            return false;
        }
        i += 1;
        assert(a@.skip(offset as int).take(i as int) =~= a@.skip(offset as int).take(i - 1).push(
            a@[offset + i - 1],
        ));
        assert(b@.take(i as int) =~= b@.take(i - 1).push(b@[i - 1]));
    }
    assert(a@.skip(offset as int).take(i as int) =~= a@.skip(offset as int));
    assert(b@.take(i as int) =~= b@);
    true
}

/// Whether `s[from..to]` begins with `prefix`.
fn has_prefix_at(s: &Vec<char>, from: usize, to: usize, prefix: &str) -> (r: bool)
    requires
        from <= to <= s.len(),
    ensures
        r == starts_with(s@.subrange(from as int, to as int), prefix@),
{
    let p = text::chars_of(prefix);
    let ghost line = s@.subrange(from as int, to as int);
    if p.len() > to - from {
        return false;
    }
    let mut i: usize = 0;
    while i < p.len()
        invariant
            i <= p.len(),
            from <= to <= s.len(),
            p.len() <= to - from,
            p@ == prefix@,
            line == s@.subrange(from as int, to as int),
            line.take(i as int) == p@.take(i as int),
        decreases p.len() - i,
    {
        if s[from + i] != p[i] {
            assert(line.take(p.len() as int)[i as int] != p@[i as int]);
            return false;
        }
        i += 1;
        assert(line.take(i as int) =~= line.take(i - 1).push(s@[from + i - 1]));
        assert(p@.take(i as int) =~= p@.take(i - 1).push(p@[i - 1]));
    }
    assert(p@.take(i as int) =~= p@);
    true
}

/// Appends the bytes `contents` as the elements of an array in source text.
fn push_byte_list(out: &mut String, contents: &[u8])
    ensures
        final(out)@ == old(out)@ + byte_list(contents@),
{
    let mut i: usize = 0;
    assert(contents@.take(0) =~= Seq::empty());
    while i < contents.len()
        invariant
            i <= contents.len(),
            out@ == old(out)@ + byte_list(contents@.take(i as int)),
        decreases contents.len() - i,
    {
        text::push_decimal(out, contents[i] as u64);
        out.append(",\n\t\t");
        i += 1;
        assert(contents@.take(i as int).drop_last() =~= contents@.take(i - 1));
        assert(out@ =~= old(out)@ + byte_list(contents@.take(i as int)));
    }
    assert(contents@.take(i as int) =~= contents@);
}

/// Appends the source of the accessor of one file.
pub fn push_accessor(
    out: &mut String,
    constant: &str,
    function: &str,
    location: &str,
    file_name: &str,
    contents: &[u8],
    dev_mode: bool,
)
    ensures
        final(out)@ == old(out)@ + accessor_text(
            constant@,
            function@,
            location@,
            file_name@,
            contents@,
            dev_mode,
        ),
{
    if !dev_mode {
        out.append("\tconst K_");
        out.append(constant);
        out.append(":&'static [u8] = &[");
        push_byte_list(out, contents);
        out.append("];\n\n");
    }
    out.append("\tpub fn ");
    out.append(function);
    out.append("() -> Vec<u8> {\n");
    if !dev_mode {
        out.append("\t\treturn Assets::K_");
        out.append(constant);
        out.append(".to_vec()");
    } else {
        out.append("\t\treturn read(\"");
        out.append(location);
        out.append(file_name);
        out.append("\").unwrap()");
    }
    out.append(";\n\t}\n\n");
    assert(final(out)@ =~= old(out)@ + accessor_text(
        constant@,
        function@,
        location@,
        file_name@,
        contents@,
        dev_mode,
    ));
}

/// The source of the module `Assets` for `files`, which lie in the directory
/// `assets_dir`; `delimiter` is what the system puts between the parts of a
/// path.
pub fn assets_module(files: &Vec<AssetFile>, assets_dir: &str, delimiter: &str, dev_mode: bool) -> (out:
    String)
    ensures
        out@ == module_text(files@, assets_dir@, delimiter@, dev_mode),
{
    let mut folder = String::from_str(assets_dir);
    if !has_suffix(assets_dir, delimiter) {
        folder.append(delimiter);
    }
    let mut out = String::new();
    if dev_mode {
        out.append("use std::fs::read;\n");
    }
    out.append("pub struct Assets;\nimpl Assets {\n");
    let ghost start = out@;
    let mut i: usize = 0;
    assert(files@.take(0) =~= Seq::empty());
    while i < files.len()
        invariant
            i <= files.len(),
            folder@ == location(assets_dir@, delimiter@),
            out@ == start + accessors_text(files@.take(i as int), folder@, dev_mode),
        decreases files.len() - i,
    {
        let file = &files[i];
        let upper = to_uppercase(file.file_name.as_str());
        let constant = stem_of(upper.as_str());
        let function = to_lowercase(constant.as_str());
        push_accessor(
            &mut out,
            constant.as_str(),
            function.as_str(),
            folder.as_str(),
            file.file_name.as_str(),
            file.contents.as_slice(),
            dev_mode,
        );
        i += 1;
        assert(files@.take(i as int).drop_last() =~= files@.take(i - 1));
        assert(out@ =~= start + accessors_text(files@.take(i as int), folder@, dev_mode));
    }
    assert(files@.take(i as int) =~= files@);
    out.append("}");
    assert(out@ =~= module_text(files@, assets_dir@, delimiter@, dev_mode));
    out
}

/// The command line that builds the program: for development, or for
/// release.
pub fn build_command(dev_mode: bool) -> (command: &'static str)
    ensures
        command@ == if dev_mode {
            "cargo build"@
        } else {
            "cargo build --release"@
        },
{
    if dev_mode {
        "cargo build"
    } else {
        "cargo build --release"
    }
}

/// A line that reports a warning or an error.
pub open spec fn is_diagnostic(line: Seq<char>) -> bool {
    starts_with(line, "warning:"@) || starts_with(line, "error:"@)
}

/// The line of `s` that begins at `from`: it ends before the next line feed,
/// and before the carriage return in front of that if there is one.
pub open spec fn line_at(s: Seq<char>, from: int) -> Seq<char> {
    let end = text::find(s, '\n', from);
    if from < end < s.len() && s[end - 1] == '\r' {
        s.subrange(from, end - 1)
    } else {
        s.subrange(from, end)
    }
}

/// The lines of `s` from `from` on that report a warning or an error, each
/// behind a line feed if `found` says that one stands before it.
pub open spec fn report_from(s: Seq<char>, from: int, found: bool) -> Seq<char>
    decreases text::remaining(s, from),
{
    if !(0 <= from < s.len()) {
        Seq::empty()
    } else {
        let next = text::find(s, '\n', from) + 1;
        if next <= from {
            Seq::empty()
        } else if is_diagnostic(line_at(s, from)) {
            let between = if found {
                seq!['\n']
            } else {
                Seq::empty()
            };
            between + line_at(s, from) + report_from(s, next, true)
        } else {
            report_from(s, next, found)
        }
    }
}

/// What a build reports: of the lines that it printed, those that begin with
/// `warning:` or `error:`, with a line feed between each two.
pub open spec fn report(printed: Seq<char>) -> Seq<char> {
    report_from(printed, 0, false)
}

/// What a build reports of what it printed.
pub fn build_report(printed: &str) -> (out: String)
    ensures
        out@ == report(printed@),
{
    let s = text::chars_of(printed);
    let mut out = String::new();
    let mut found = false;
    let mut from: usize = 0;
    assert(Seq::<char>::empty() + report_from(s@, 0, false) =~= report_from(s@, 0, false));
    while from < s.len()
        invariant
            from <= s.len(),
            report(s@) == out@ + report_from(s@, from as int, found),
        decreases s.len() - from,
    {
        let mut end: usize = from;
        while end < s.len() && s[end] != '\n'
            invariant
                from <= end <= s.len(),
                text::find(s@, '\n', from as int) == text::find(s@, '\n', end as int),
            decreases s.len() - end,
        {
            end += 1;
        }
        let line_end = if from < end && end < s.len() && s[end - 1] == '\r' {
            end - 1
        } else {
            end
        };
        assert(s@.subrange(from as int, line_end as int) == line_at(s@, from as int));
        let ghost before = out@;
        let ghost rest = report_from(s@, end + 1, true);
        if has_prefix_at(&s, from, line_end, "warning:") || has_prefix_at(
            &s,
            from,
            line_end,
            "error:",
        ) {
            if found {
                text::push_char(&mut out, '\n');
            }
            let line = text::string_of(&s, from, line_end);
            out.append(line.as_str());
            let ghost between = if found {
                seq!['\n']
            } else {
                Seq::<char>::empty()
            };
            assert(before + (between + line_at(s@, from as int) + rest) =~= out@ + rest);
            found = true;
        }
        if end < s.len() {
            from = end + 1;
        } else {
            assert(report_from(s@, end + 1, found) =~= Seq::empty());
            from = end;
        }
    }
    assert(out@ + Seq::<char>::empty() =~= out@);
    out
}

} // verus!
