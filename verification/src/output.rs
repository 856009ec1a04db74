//! Naming of the output files, the queue of file numbers that the writers
//! share, the field delimiter byte, and the validation of the input file.

use vstd::prelude::*;

verus! {

// ---------------------------------------------------------------------------
// Decimal numbers.
// ---------------------------------------------------------------------------

/// The decimal digit character for `d` (0 to 9).
pub open spec fn digit_char(d: int) -> char {
    if d == 0 {
        '0'
    } else if d == 1 {
        '1'
    } else if d == 2 {
        '2'
    } else if d == 3 {
        '3'
    } else if d == 4 {
        '4'
    } else if d == 5 {
        '5'
    } else if d == 6 {
        '6'
    } else if d == 7 {
        '7'
    } else if d == 8 {
        '8'
    } else {
        '9'
    }
}

/// The decimal writing of `n`, without leading zeros.
pub open spec fn decimal(n: nat) -> Seq<char>
    decreases n,
{
    if n < 10 {
        seq![digit_char(n as int)]
    } else {
        decimal(n / 10) + seq![digit_char((n % 10) as int)]
    }
}

fn digit_str(d: usize) -> (r: &'static str)
    requires
        d < 10,
    ensures
        r@ == seq![digit_char(d as int)],
{
    proof {
        reveal_strlit("0");
        reveal_strlit("1");
        reveal_strlit("2");
        reveal_strlit("3");
        reveal_strlit("4");
        reveal_strlit("5");
        reveal_strlit("6");
        reveal_strlit("7");
        reveal_strlit("8");
        reveal_strlit("9");
    }
    let r = if d == 0 {
        "0"
    } else if d == 1 {
        "1"
    } else if d == 2 {
        "2"
    } else if d == 3 {
        "3"
    } else if d == 4 {
        "4"
    } else if d == 5 {
        "5"
    } else if d == 6 {
        "6"
    } else if d == 7 {
        "7"
    } else if d == 8 {
        "8"
    } else {
        "9"
    };
    assert(r@ =~= seq![digit_char(d as int)]);
    r
}

/// Appends the decimal writing of `n` to `s`.
fn push_decimal(s: &mut String, n: usize)
    ensures
        final(s)@ == old(s)@ + decimal(n as nat),
    decreases n,
{
    if n < 10 {
        s.append(digit_str(n));
    } else {
        push_decimal(s, n / 10);
        s.append(digit_str(n % 10));
        assert(s@ =~= old(s)@ + decimal(n as nat));
    }
}

/// Writes `n` in decimal.
pub fn to_decimal(n: usize) -> (r: String)
    ensures
        r@ == decimal(n as nat),
{
    let mut s = String::new();
    push_decimal(&mut s, n);
    assert(s@ =~= decimal(n as nat));
    s
}

/// A decimal writing is never empty and starts with a non-zero digit unless
/// it is "0".
proof fn lemma_decimal_shape(n: nat)
    ensures
        decimal(n).len() >= 1,
        n >= 10 ==> decimal(n).len() >= 2,
        forall|i: int| 0 <= i < decimal(n).len() ==> 48 <= (#[trigger] decimal(n)[i] as u32) <= 57,
    decreases n,
{
    if n >= 10 {
        lemma_decimal_shape(n / 10);
    }
}

/// The number that a string of decimal digits stands for, most significant
/// digit first.
pub open spec fn digits_value(s: Seq<char>) -> nat
    decreases s.len(),
{
    if s.len() == 0 {
        0
    } else {
        digits_value(s.drop_last()) * 10 + ((s.last() as u32) - 48) as nat
    }
}

/// The digit character for `d` has code point `48 + d`.
proof fn lemma_digit_char(d: int)
    requires
        0 <= d < 10,
    ensures
        digit_char(d) as u32 == 48 + d,
{
    if d == 0 {
        assert('0' as u32 == 48);
    } else if d == 1 {
        assert('1' as u32 == 49);
    } else if d == 2 {
        assert('2' as u32 == 50);
    } else if d == 3 {
        assert('3' as u32 == 51);
    } else if d == 4 {
        assert('4' as u32 == 52);
    } else if d == 5 {
        assert('5' as u32 == 53);
    } else if d == 6 {
        assert('6' as u32 == 54);
    } else if d == 7 {
        assert('7' as u32 == 55);
    } else if d == 8 {
        assert('8' as u32 == 56);
    } else {
        assert('9' as u32 == 57);
    }
}

/// The decimal writing of `n` reads back as `n`, and it starts with a zero
/// only when it is "0".
pub proof fn lemma_decimal_reads_back(n: nat)
    ensures
        digits_value(decimal(n)) == n,
        decimal(n).len() > 1 ==> decimal(n)[0] != '0',
    decreases n,
{
    let d = decimal(n);
    if n < 10 {
        lemma_digit_char(n as int);
        assert(d.drop_last() =~= Seq::<char>::empty());
        assert(d.last() == digit_char(n as int));
        assert(digits_value(d.drop_last()) == 0);
        assert(digits_value(d) == digits_value(d.drop_last()) * 10 + ((d.last() as u32) - 48) as nat);
    } else {
        lemma_decimal_reads_back(n / 10);
        lemma_decimal_shape(n / 10);
        lemma_digit_char((n % 10) as int);
        assert(d.drop_last() =~= decimal(n / 10));
        assert(d.last() == digit_char((n % 10) as int));
        assert(digits_value(d) == digits_value(d.drop_last()) * 10 + ((d.last() as u32) - 48) as nat);
        vstd::arithmetic::div_mod::lemma_fundamental_div_mod(n as int, 10);
        assert(digits_value(d) == (n / 10) * 10 + n % 10);
        assert(d[0] == decimal(n / 10)[0]);
        if decimal(n / 10).len() == 1 {
            assert(n / 10 >= 10 ==> decimal(n / 10).len() >= 2);
            assert(1 <= n / 10 < 10);
            lemma_digit_char((n / 10) as int);
            assert(decimal(n / 10)[0] == digit_char((n / 10) as int));
        }
    }
}

/// Different numbers are written differently.
pub proof fn lemma_decimal_injective(a: nat, b: nat)
    requires
        decimal(a) == decimal(b),
    ensures
        a == b,
    decreases a,
{
    lemma_decimal_shape(a);
    lemma_decimal_shape(b);
    if a < 10 && b < 10 {
        assert(decimal(a) == seq![digit_char(a as int)]);
        assert(decimal(b) == seq![digit_char(b as int)]);
        assert(decimal(a)[0] == digit_char(a as int));
        assert(decimal(b)[0] == digit_char(b as int));
        assert(digit_char(a as int) == digit_char(b as int));
        lemma_digit_char(a as int);
        lemma_digit_char(b as int);
    } else if a >= 10 && b >= 10 {
        let da = decimal(a);
        let db = decimal(b);
        assert(da.last() == db.last());
        assert(da.last() == digit_char((a % 10) as int));
        assert(db.last() == digit_char((b % 10) as int));
        assert(a % 10 == b % 10);
        assert(da.drop_last() =~= decimal(a / 10));
        assert(db.drop_last() =~= decimal(b / 10));
        lemma_decimal_injective(a / 10, b / 10);
    } else {
        assert(decimal(a).len() != decimal(b).len());
    }
}

// ---------------------------------------------------------------------------
// Output file names.
// ---------------------------------------------------------------------------

/// What `std::path::Path::file_stem` gives for a path, as text.
pub uninterp spec fn path_file_stem(path: Seq<char>) -> Option<Seq<char>>;

/// Calls `std::path::Path::file_stem` on `path`. Trusted: the result is
/// `path_file_stem(path)`; nothing else is stated of it.
#[verifier::external_body]
fn file_stem_of(path: &str) -> (r: Option<String>)
    ensures
        r.deep_view() == path_file_stem(path@),
{
    std::path::Path::new(path).file_stem().and_then(|stem| stem.to_str()).map(String::from)
}

/// The name of the output file number `index` for an input whose file stem
/// is `stem`: `{output_dir}/{stem}-{index}.csv`.
pub open spec fn output_name(output_dir: Seq<char>, stem: Seq<char>, index: nat) -> Seq<char> {
    output_dir + seq!['/'] + stem + seq!['-'] + decimal(index) + seq!['.', 'c', 's', 'v']
}

/// The file stem used in output names: empty when the input has none.
pub open spec fn stem_or_empty(stem: Option<Seq<char>>) -> Seq<char> {
    match stem {
        Some(s) => s,
        None => Seq::empty(),
    }
}

/// Builds `{output_dir}/{stem}-{index}.csv`.
pub fn output_file_name(output_dir: &str, stem: &str, index: usize) -> (r: String)
    ensures
        r@ == output_name(output_dir@, stem@, index as nat),
{
    proof {
        reveal_strlit("/");
        reveal_strlit("-");
        reveal_strlit(".csv");
    }
    let mut s = String::from_str(output_dir);
    s.append("/");
    s.append(stem);
    s.append("-");
    push_decimal(&mut s, index);
    s.append(".csv");
    assert(s@ =~= output_name(output_dir@, stem@, index as nat));
    s
}

/// The path of output file number `index` for the input file `input_file`
/// written into `output_dir`.
pub fn output_file_path(output_dir: &str, input_file: &str, index: usize) -> (r: String)
    ensures
        r@ == output_name(output_dir@, stem_or_empty(path_file_stem(input_file@)), index as nat),
        path_file_stem(input_file@) matches Some(stem) ==> r@ == output_dir@ + seq!['/'] + stem
            + seq!['-'] + decimal(index as nat) + seq!['.', 'c', 's', 'v'],
        path_file_stem(input_file@) is None ==> r@ == output_dir@ + seq!['/', '-'] + decimal(
            index as nat,
        ) + seq!['.', 'c', 's', 'v'],
{
    proof {
        lemma_stem_or_empty(path_file_stem(input_file@));
        if let Some(stem) = path_file_stem(input_file@) {
            assert(output_name(output_dir@, stem, index as nat) =~= output_dir@ + seq!['/'] + stem
                + seq!['-'] + decimal(index as nat) + seq!['.', 'c', 's', 'v']);
        } else {
            assert(output_name(output_dir@, Seq::empty(), index as nat) =~= output_dir@ + seq![
                '/',
                '-',
            ] + decimal(index as nat) + seq!['.', 'c', 's', 'v']);
        }
    }
    let stem = file_stem_of(input_file);
    match stem {
        Some(s) => {
            assert(stem_or_empty(path_file_stem(input_file@)) == s@);
            let st = s.as_str();
            assert(st@ == s@);
            let r = output_file_name(output_dir, st, index);
            assert(r@ == output_name(output_dir@, s@, index as nat));
            r
        },
        None => {
            proof {
                reveal_strlit("");
            }
            assert(""@ =~= stem_or_empty(path_file_stem(input_file@)));
            output_file_name(output_dir, "", index)
        },
    }
}

/// The stem used in output names is the input's whole file stem, or nothing
/// when the input has none.
pub proof fn lemma_stem_or_empty(stem: Option<Seq<char>>)
    ensures
        stem matches Some(s) ==> stem_or_empty(stem) == s,
        stem is None ==> stem_or_empty(stem).len() == 0,
{
}

/// An output name holds the output directory, then '/', then the whole stem,
/// then '-', then the file number in decimal, then ".csv": the stem can be
/// read back from it unchanged.
pub proof fn lemma_output_name_parts(output_dir: Seq<char>, stem: Seq<char>, index: nat)
    ensures
        ({
            let n = output_name(output_dir, stem, index);
            let d = output_dir.len() as int;
            &&& n.subrange(0, d) == output_dir
            &&& n[d] == '/'
            &&& n.subrange(d + 1, d + 1 + stem.len()) == stem
            &&& n[d + 1 + stem.len()] == '-'
            &&& n.subrange(d + 2 + stem.len(), n.len() - 4) == decimal(index)
            &&& n.subrange(n.len() - 4, n.len() as int) == seq!['.', 'c', 's', 'v']
        }),
{
    let n = output_name(output_dir, stem, index);
    let d = output_dir.len() as int;
    assert(n =~= output_dir + seq!['/'] + stem + seq!['-'] + decimal(index) + seq![
        '.',
        'c',
        's',
        'v',
    ]);
    assert(n.subrange(0, d) =~= output_dir);
    assert(n.subrange(d + 1, d + 1 + stem.len()) =~= stem);
    assert(n.subrange(d + 2 + stem.len(), n.len() - 4) =~= decimal(index));
    assert(n.subrange(n.len() - 4, n.len() as int) =~= seq!['.', 'c', 's', 'v']);
}

/// Output files with different numbers have different names.
pub proof fn lemma_output_names_distinct(output_dir: Seq<char>, stem: Seq<char>, a: nat, b: nat)
    requires
        a != b,
    ensures
        output_name(output_dir, stem, a) != output_name(output_dir, stem, b),
{
    let pre = output_dir + seq!['/'] + stem + seq!['-'];
    let suf = seq!['.', 'c', 's', 'v'];
    let na = output_name(output_dir, stem, a);
    let nb = output_name(output_dir, stem, b);
    assert(na =~= pre + decimal(a) + suf);
    assert(nb =~= pre + decimal(b) + suf);
    if na == nb {
        assert(na.subrange(pre.len() as int, na.len() - 4) =~= decimal(a));
        assert(nb.subrange(pre.len() as int, nb.len() - 4) =~= decimal(b));
        lemma_decimal_injective(a, b);
    }
}

// ---------------------------------------------------------------------------
// The queue of output file numbers.
// ---------------------------------------------------------------------------

/// The numbers are strictly increasing.
pub open spec fn increasing(s: Seq<usize>) -> bool {
    forall|i: int, j: int| 0 <= i < j < s.len() ==> #[trigger] s[i] < #[trigger] s[j]
}

/// The numbers `1..=count`.
pub open spec fn first_numbers(count: nat) -> Seq<usize> {
    Seq::new(count, |i: int| (i + 1) as usize)
}

/// The numbers still to be given to output files, smallest first.
pub struct FileIndexQueue {
    indexes: Vec<usize>,
}

impl FileIndexQueue {
    #[verifier::type_invariant]
    spec fn inv(self) -> bool {
        increasing(self.indexes@)
    }

    /// The numbers still queued, in the order they will be handed out.
    pub closed spec fn view(&self) -> Seq<usize> {
        self.indexes@
    }

    /// A queue holding the numbers `1..=count`.
    pub fn new(count: usize) -> (q: FileIndexQueue)
        requires
            count < usize::MAX,
        ensures
            q@ == first_numbers(count as nat),
            increasing(q@),
    {
        let mut indexes: Vec<usize> = Vec::new();
        let mut i: usize = 0;
        while i < count
            invariant
                i <= count < usize::MAX,
                indexes@ =~= first_numbers(i as nat),
            decreases count - i,
        {
            indexes.push(i + 1);
            i = i + 1;
        }
        FileIndexQueue { indexes }
    }

    /// How many numbers are left.
    pub fn remaining(&self) -> (r: usize)
        ensures
            r == self@.len(),
    {
        self.indexes.len()
    }

    /// Hands out the smallest number left, if any. A number handed out is
    /// smaller than every number still queued, so it is never handed out
    /// again.
    pub fn take_first(&mut self) -> (r: Option<usize>)
        ensures
            old(self)@.len() == 0 ==> r is None && final(self)@ == old(self)@,
            old(self)@.len() > 0 ==> r == Some(old(self)@[0]) && final(self)@ == old(
                self,
            )@.drop_first(),
            increasing(final(self)@),
            r matches Some(x) ==> forall|j: int|
                0 <= j < final(self)@.len() ==> x < #[trigger] final(self)@[j],
            r matches Some(x) ==> !final(self)@.contains(x),
    {
        proof {
            use_type_invariant(&*self);
        }
        if self.indexes.len() == 0 {
            None
        } else {
            let mut indexes: Vec<usize> = Vec::new();
            std::mem::swap(&mut indexes, &mut self.indexes);
            let x = indexes.remove(0);
            proof {
                assert(increasing(indexes@)) by {
                    assert forall|i: int, j: int| 0 <= i < j < indexes@.len() implies #[trigger] indexes@[i]
                        < #[trigger] indexes@[j] by {
                        assert(indexes@[i] == old(self)@[i + 1]);
                        assert(indexes@[j] == old(self)@[j + 1]);
                    }
                }
            }
            self.indexes = indexes;
            proof {
                assert(self.indexes@ =~= old(self)@.drop_first());
                assert forall|j: int| 0 <= j < self.indexes@.len() implies x
                    < #[trigger] self.indexes@[j] by {
                    assert(self.indexes@[j] == old(self)@[j + 1]);
                }
            }
            Some(x)
        }
    }
}

/// Takes the next file number from the shared queue and names the output
/// file with it; `None` when no number is left.
pub fn assign_output_file(queue: &mut FileIndexQueue, output_dir: &str, input_file: &str) -> (r:
    Option<String>)
    ensures
        old(queue)@.len() == 0 ==> r is None && final(queue)@ == old(queue)@,
        old(queue)@.len() > 0 ==> final(queue)@ == old(queue)@.drop_first() && r is Some,
        r matches Some(path) ==> old(queue)@.len() > 0 && path@ == output_name(
            output_dir@,
            stem_or_empty(path_file_stem(input_file@)),
            old(queue)@[0] as nat,
        ),
        r matches Some(path) ==> path_file_stem(input_file@) matches Some(stem) ==> path@
            == output_name(output_dir@, stem, old(queue)@[0] as nat),
{
    match queue.take_first() {
        Some(index) => Some(output_file_path(output_dir, input_file, index)),
        None => None,
    }
}

// ---------------------------------------------------------------------------
// Delimiter and input checks.
// ---------------------------------------------------------------------------

/// The byte written as field delimiter for a delimiter character: the low
/// eight bits of its code point.
pub fn delimiter_byte(delimiter: char) -> (r: u8)
    ensures
        r == (delimiter as u32) % 256,
{
    let code = delimiter as u32;
    let r = code as u8;
    assert(r == code % 256) by (bit_vector)
        requires
            r == code as u8,
    ;
    r
}

/// Why the input file cannot be sliced.
#[derive(Clone, Copy, Debug, PartialEq, Eq, Structural)]
pub enum InputFileError {
    /// The input file does not exist.
    Missing,
    /// The input file is empty.
    Empty,
}

impl InputFileError {
    /// The message shown to the user.
    pub fn message(&self) -> (r: &'static str)
        ensures
            *self == InputFileError::Missing ==> r@
                == "O arquivo não existe, por gentileza informe um arquivo valido."@,
            *self == InputFileError::Empty ==> r@
                == "O arquivo está vazio, por gentileza informe um arquivo valido."@,
    {
        match self {
            InputFileError::Missing => "O arquivo não existe, por gentileza informe um arquivo valido.",
            InputFileError::Empty => "O arquivo está vazio, por gentileza informe um arquivo valido.",
        }
    }
}

/// Checks the input file before slicing: it must exist and not be empty.
pub fn check_input_file(exists: bool, byte_len: u64) -> (r: Result<(), InputFileError>)
    ensures
        !exists ==> r == Err::<(), InputFileError>(InputFileError::Missing),
        exists && byte_len == 0 ==> r == Err::<(), InputFileError>(InputFileError::Empty),
        exists && byte_len > 0 ==> r is Ok,
{
    if !exists {
        Err(InputFileError::Missing)
    } else if byte_len == 0 {
        Err(InputFileError::Empty)
    } else {
        Ok(())
    }
}

} // verus!
