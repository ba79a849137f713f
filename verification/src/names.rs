//! Names: taking an input file's name apart, and naming the output files.
use vstd::prelude::*;
use vstd::string::*;

verus! {

/// The character that separates the directories of a path.
pub open spec fn path_separator() -> char {
    '/'
}

/// The position of the last `c` in `s`, or -1 where `s` holds none.
pub open spec fn last_index_of(s: Seq<char>, c: char) -> int
    decreases s.len(),
{
    if s.len() == 0 {
        -1
    } else if s.last() == c {
        s.len() - 1
    } else {
        last_index_of(s.drop_last(), c)
    }
}

/// The directory prefix of a path: everything up through its last
/// separator, and nothing where it has none.
pub open spec fn dir_prefix(path: Seq<char>) -> Seq<char> {
    path.take(last_index_of(path, path_separator()) + 1)
}

/// The filename component of a path: what follows its last separator.
pub open spec fn file_name(path: Seq<char>) -> Seq<char> {
    path.skip(last_index_of(path, path_separator()) + 1)
}

/// A filename without its extension: what stands before its last `.`, and
/// the whole filename where it has none.
pub open spec fn name_stem(name: Seq<char>) -> Seq<char> {
    let dot = last_index_of(name, '.');
    if dot < 0 {
        name
    } else {
        name.take(dot)
    }
}

/// The extension of a filename: what follows its last `.`, and nothing
/// where it has none.
pub open spec fn name_extension(name: Seq<char>) -> Seq<char> {
    let dot = last_index_of(name, '.');
    if dot < 0 {
        Seq::empty()
    } else {
        name.skip(dot + 1)
    }
}

/// The base name of a path: its filename without the extension, behind the
/// directory prefix as it was written.
pub open spec fn base_name(path: Seq<char>) -> Seq<char> {
    dir_prefix(path) + name_stem(file_name(path))
}

/// The extension of a path: that of its filename component.
pub open spec fn extension(path: Seq<char>) -> Seq<char> {
    name_extension(file_name(path))
}

/// `last_index_of` is in range, points at a `c` where it is not -1, and no
/// `c` stands behind it.
pub proof fn lemma_last_index_of(s: Seq<char>, c: char)
    ensures
        -1 <= last_index_of(s, c) < s.len(),
        last_index_of(s, c) >= 0 ==> s[last_index_of(s, c)] == c,
        forall|j: int| last_index_of(s, c) < j < s.len() ==> s[j] != c,
    decreases s.len(),
{
    if s.len() > 0 && s.last() != c {
        let front = s.drop_last();
        lemma_last_index_of(front, c);
        assert forall|j: int| last_index_of(s, c) < j < s.len() implies s[j] != c by {
            if j < front.len() {
                assert(front[j] == s[j]);
            }
        }
    }
}

/// Splits a path into its base name and its extension.
///
/// The extension is what follows the last `.` of the filename component; the
/// base name is everything before that `.`, directories included. A filename
/// without a `.` is its own base name and has an empty extension.
pub fn basename(filename: &str) -> (parts: (String, String))
    ensures
        parts.0@ == base_name(filename@),
        parts.1@ == extension(filename@),
{
    let len = filename.unicode_len();
    let mut i: usize = 0;
    let mut name_start: usize = 0;
    let mut dot: Option<usize> = None;
    for c in it: filename.chars()
        invariant
            len == filename@.len(),
            i == it.index(),
            it.seq() == filename@,
            name_start == last_index_of(filename@.take(i as int), path_separator()) + 1,
            name_start <= i,
            match dot {
                Some(d) => name_start <= d < i && d - name_start == last_index_of(
                    filename@.take(i as int).skip(name_start as int),
                    '.',
                ),
                None => last_index_of(filename@.take(i as int).skip(name_start as int), '.')
                    == -1,
            },
    {
        let ghost seen = filename@.take(i as int);
        let ghost next = filename@.take(i + 1);
        assert(next.drop_last() == seen);
        assert(next.last() == c);
        if c == '/' {
            name_start = i + 1;
            dot = None;
            assert(next.skip(i + 1).len() == 0);
        } else {
            assert(next.skip(name_start as int).drop_last() == seen.skip(name_start as int));
            assert(next.skip(name_start as int).last() == c);
            if c == '.' {
                dot = Some(i);
            }
        }
        i = i + 1;
    }
    assert(filename@.take(i as int) == filename@);
    match dot {
        Some(d) => {
            let stem = filename.substring_char(0, d);
            let ext = filename.substring_char(d + 1, len);
            proof {
                let path = filename@;
                let name = file_name(path);
                assert(stem@ == dir_prefix(path) + name.take(d - name_start));
                assert(ext@ == name.skip(d - name_start + 1));
            }
            (stem.to_owned(), ext.to_owned())
        },
        None => {
            proof {
                let path = filename@;
                assert(path == dir_prefix(path) + file_name(path));
            }
            (filename.to_owned(), String::new())
        },
    }
}

/// A path is its directory prefix followed by its filename; the filename
/// holds no separator, and a directory prefix that is not empty ends in one.
pub proof fn lemma_path_parts(path: Seq<char>)
    ensures
        dir_prefix(path) + file_name(path) == path,
        !file_name(path).contains(path_separator()),
        dir_prefix(path).len() > 0 ==> dir_prefix(path).last() == path_separator(),
{
    lemma_last_index_of(path, path_separator());
    let cut = last_index_of(path, path_separator()) + 1;
    assert(path.take(cut) + path.skip(cut) =~= path);
    let name = file_name(path);
    if name.contains(path_separator()) {
        let j = choose|j: int| 0 <= j < name.len() && name[j] == path_separator();
        assert(path[cut + j] == path_separator());
    }
}

/// A path whose filename holds no `.` is its own base name, and its
/// extension is empty.
pub proof fn lemma_name_without_dot(path: Seq<char>)
    requires
        !file_name(path).contains('.'),
    ensures
        base_name(path) == path,
        extension(path) == Seq::<char>::empty(),
{
    let name = file_name(path);
    lemma_last_index_of(name, '.');
    let dot = last_index_of(name, '.');
    if dot >= 0 {
        assert(name[dot] == '.');
    }
    lemma_path_parts(path);
}

/// A path whose filename holds a `.` is cut at the last one: the extension
/// is what follows it in the filename, and the base name is the directory
/// prefix and what stands before it. Base name, `.` and extension give the
/// path back.
pub proof fn lemma_name_with_dot(path: Seq<char>)
    requires
        file_name(path).contains('.'),
    ensures
        ({
            let name = file_name(path);
            let dot = last_index_of(name, '.');
            &&& 0 <= dot < name.len()
            &&& name[dot] == '.'
            &&& forall|j: int| dot < j < name.len() ==> name[j] != '.'
            &&& extension(path) == name.skip(dot + 1)
            &&& base_name(path) == dir_prefix(path) + name.take(dot)
        }),
        base_name(path) + seq!['.'] + extension(path) == path,
{
    let name = file_name(path);
    lemma_last_index_of(name, '.');
    let dot = last_index_of(name, '.');
    if dot < 0 {
        let j = choose|j: int| 0 <= j < name.len() && name[j] == '.';
        assert(name[j] != '.');
    }
    lemma_path_parts(path);
    assert(name.take(dot) + seq!['.'] + name.skip(dot + 1) =~= name);
    assert(base_name(path) + seq!['.'] + extension(path) =~= dir_prefix(path) + (name.take(dot)
        + seq!['.'] + name.skip(dot + 1)));
}

/// The ten decimal digits, in order.
pub open spec fn digits() -> Seq<char> {
    seq!['0', '1', '2', '3', '4', '5', '6', '7', '8', '9']
}

/// A number written in decimal, without sign or leading zeros.
pub open spec fn decimal(n: nat) -> Seq<char>
    decreases n,
{
    if n < 10 {
        seq![digits()[n as int]]
    } else {
        decimal(n / 10).push(digits()[(n % 10) as int])
    }
}

/// The name of output file number `counter`: the base name, a hyphen, the
/// number in decimal, a dot and the extension.
pub open spec fn output_name(base: Seq<char>, ext: Seq<char>, counter: nat) -> Seq<char> {
    base + seq!['-'] + decimal(counter) + seq!['.'] + ext
}

fn digit_text(d: u64) -> (text: &'static str)
    requires
        d < 10,
    ensures
        text@ == seq![digits()[d as int]],
{
    proof {
        reveal_strlit("0");
        reveal_strlit("1");
        reveal_strlit("2");
        reveal_strlit("3");
        reveal_strlit("4");
        reveal_strlit("5");
        reveal_strlit("6");
        reveal_strlit("7");
        reveal_strlit("8");
        reveal_strlit("9");
    }
    let text = if d == 0 {
        "0"
    } else if d == 1 {
        "1"
    } else if d == 2 {
        "2"
    } else if d == 3 {
        "3"
    } else if d == 4 {
        "4"
    } else if d == 5 {
        "5"
    } else if d == 6 {
        "6"
    } else if d == 7 {
        "7"
    } else if d == 8 {
        "8"
    } else {
        "9"
    };
    assert(text@ =~= seq![digits()[d as int]]);
    text
}

/// Writes a number in decimal.
pub fn decimal_string(n: u64) -> (text: String)
    ensures
        text@ == decimal(n as nat),
    decreases n,
{
    if n < 10 {
        digit_text(n).to_owned()
    } else {
        let mut text = decimal_string(n / 10);
        text.append(digit_text(n % 10));
        text
    }
}

/// Builds the name of output file number `counter`.
pub fn output_filename(basename: &str, extension: &str, counter: u64) -> (name: String)
    ensures
        name@ == output_name(basename@, extension@, counter as nat),
{
    proof {
        reveal_strlit("-");
        reveal_strlit(".");
    }
    let number = decimal_string(counter);
    let mut name = basename.to_owned();
    name.append("-");
    name.append(number.as_str());
    name.append(".");
    name.append(extension);
    assert("-"@ =~= seq!['-']);
    assert("."@ =~= seq!['.']);
    name
}

/// Names the next output file and counts it.
///
/// The name is built from the counter as it stands before the call, so the
/// first file of a run that counts from 0 has the number 0; the counter then
/// goes up by exactly one.
pub fn open_new_file_for_output(
    basename: &str,
    extension: &str,
    output_file_count: &mut u64,
) -> (name: String)
    requires
        *old(output_file_count) < u64::MAX,
    ensures
        name@ == output_name(basename@, extension@, *old(output_file_count) as nat),
        *final(output_file_count) == *old(output_file_count) + 1,
{
    let name = output_filename(basename, extension, *output_file_count);
    *output_file_count = *output_file_count + 1;
    name
}

/// A number in decimal has at least one digit.
pub proof fn lemma_decimal_len(n: nat)
    ensures
        decimal(n).len() >= 1,
    decreases n,
{
    if n >= 10 {
        lemma_decimal_len(n / 10);
    }
}

/// Two numbers that are written alike are the same number.
pub proof fn lemma_decimal_injective(a: nat, b: nat)
    requires
        decimal(a) == decimal(b),
    ensures
        a == b,
    decreases a,
{
    lemma_decimal_len(a / 10);
    lemma_decimal_len(b / 10);
    if a < 10 && b < 10 {
        assert(decimal(a)[0] == digits()[a as int]);
        assert(decimal(b)[0] == digits()[b as int]);
    } else if a >= 10 && b >= 10 {
        let da = digits()[(a % 10) as int];
        let db = digits()[(b % 10) as int];
        assert(decimal(a).last() == da);
        assert(decimal(b).last() == db);
        assert(decimal(a).drop_last() == decimal(a / 10));
        assert(decimal(b).drop_last() == decimal(b / 10));
        lemma_decimal_injective(a / 10, b / 10);
    } else {
        assert(decimal(a).len() != decimal(b).len());
    }
}

/// Output files with different numbers have different names: no name comes
/// twice in a run.
pub proof fn lemma_output_names_distinct(base: Seq<char>, ext: Seq<char>, i: nat, j: nat)
    requires
        i != j,
    ensures
        output_name(base, ext, i) != output_name(base, ext, j),
{
    let a = output_name(base, ext, i);
    let b = output_name(base, ext, j);
    if a == b {
        let from = (base.len() + 1) as int;
        assert(a.len() == from + decimal(i).len() + 1 + ext.len());
        assert(b.len() == from + decimal(j).len() + 1 + ext.len());
        assert(a.subrange(from, from + decimal(i).len()) =~= decimal(i));
        assert(b.subrange(from, from + decimal(j).len()) =~= decimal(j));
        lemma_decimal_injective(i, j);
    }
}

} // verus!
