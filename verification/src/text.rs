//! Paths and errors as text.

use crate::column_name::ColumnName;
use crate::error::{SchemaDiffError, SchemaDiffErrorView};
use crate::strings::strings_view;
use vstd::prelude::*;
use vstd::string::{StrSliceExecFns, StringExecFns};

verus! {

/// An ASCII letter, an ASCII digit, or an underscore.
pub open spec fn is_simple_char(c: char) -> bool {
    ||| 'a' <= c <= 'z'
    ||| 'A' <= c <= 'Z'
    ||| is_digit(c)
    ||| c == '_'
}

/// An ASCII digit.
pub open spec fn is_digit(c: char) -> bool {
    '0' <= c <= '9'
}

/// The name can stand in a path as it is: it is not empty, does not start with a digit and has no
/// special characters.
pub open spec fn is_simple_name(name: Seq<char>) -> bool {
    &&& name.len() > 0
    &&& !is_digit(name[0])
    &&& forall|i: int| 0 <= i < name.len() ==> is_simple_char(#[trigger] name[i])
}

/// The name with every backtick doubled.
pub open spec fn backticks_doubled(name: Seq<char>) -> Seq<char>
    decreases name.len(),
{
    if name.len() == 0 {
        seq![]
    } else if name.last() == '`' {
        backticks_doubled(name.drop_last()) + seq!['`', '`']
    } else {
        backticks_doubled(name.drop_last()).push(name.last())
    }
}

/// The text of a name on a path: the name itself, or, if it is not simple, the name in backticks.
pub open spec fn name_text(name: Seq<char>) -> Seq<char> {
    if is_simple_name(name) {
        name
    } else {
        seq!['`'] + backticks_doubled(name) + seq!['`']
    }
}

/// The text of a path: its names with dots between them.
pub open spec fn path_text(path: Seq<Seq<char>>) -> Seq<char>
    decreases path.len(),
{
    if path.len() == 0 {
        seq![]
    } else if path.len() == 1 {
        name_text(path[0])
    } else {
        path_text(path.drop_last()).push('.') + name_text(path.last())
    }
}

/// Whether a name is simple.
fn check_simple_name(name: &String) -> (r: bool)
    ensures
        r == is_simple_name(name@),
{
    let s: &str = name.as_str();
    let n: usize = s.unicode_len();
    if n == 0 {
        return false;
    }
    let first: char = s.get_char(0);
    if '0' <= first && first <= '9' {
        return false;
    }
    for i in 0..n
        invariant
            n == name@.len(),
            s@ == name@,
            forall|j: int| 0 <= j < i ==> is_simple_char(#[trigger] name@[j]),
    {
        let c: char = s.get_char(i);
        let simple: bool = ('a' <= c && c <= 'z') || ('A' <= c && c <= 'Z') || ('0' <= c && c
            <= '9') || c == '_';
        if !simple {
            assert(!is_simple_char(name@[i as int]));
            return false;
        }
    }
    true
}

/// Appends the text of a name.
fn append_name(text: &mut String, name: &String)
    ensures
        final(text)@ == old(text)@ + name_text(name@),
{
    let s: &str = name.as_str();
    if check_simple_name(name) {
        text.append(s);
        return;
    }
    let ghost before = text@;
    proof {
        reveal_strlit("`");
    }
    text.append("`");
    let n: usize = s.unicode_len();
    assert("`"@ =~= seq!['`']);
    assert(name@.take(0) =~= Seq::empty());
    assert(text@ =~= before + seq!['`'] + backticks_doubled(name@.take(0)));
    for i in 0..n
        invariant
            n == name@.len(),
            s@ == name@,
            "`"@ == seq!['`'],
            text@ == before + seq!['`'] + backticks_doubled(name@.take(i as int)),
    {
        let ghost so_far = backticks_doubled(name@.take(i as int));
        let ghost c = name@[i as int];
        proof {
            assert(name@.take(i + 1).drop_last() =~= name@.take(i as int));
            assert(name@.take(i + 1).last() == c);
            assert(s@.subrange(i as int, i + 1) =~= seq![c]);
        }
        text.append(s.substring_char(i, i + 1));
        if s.get_char(i) == '`' {
            text.append("`");
            assert(so_far + seq![c] + seq!['`'] =~= so_far + seq!['`', '`']);
        } else {
            assert(so_far + seq![c] =~= so_far.push(c));
        }
        assert(text@ =~= before + seq!['`'] + backticks_doubled(name@.take(i + 1)));
    }
    assert(name@.take(n as int) =~= name@);
    text.append("`");
    assert(text@ =~= before + name_text(name@));
}

impl ColumnName {
    /// The path as text, for example `user.address.street`.
    pub fn to_text(&self) -> (r: String)
        ensures
            r@ == path_text(self@),
    {
        let names: &[String] = self.path();
        let ghost path = self@;
        let mut text: String = String::new();
        let n: usize = names.len();
        proof {
            reveal_strlit(".");
        }
        assert("."@ =~= seq!['.']);
        assert(path.take(0) =~= Seq::empty());
        for i in 0..n
            invariant
                n == names@.len(),
                path == strings_view(names@),
                "."@ == seq!['.'],
                text@ == path_text(path.take(i as int)),
        {
            let ghost so_far = text@;
            proof {
                assert(path.take(i + 1).drop_last() =~= path.take(i as int));
                assert(path.take(i + 1).last() == names@[i as int]@);
                assert(path.take(0) =~= Seq::empty());
            }
            if i > 0 {
                text.append(".");
                assert(text@ =~= so_far.push('.'));
            }
            append_name(&mut text, &names[i]);
            assert(text@ =~= path_text(path.take(i + 1)));
        }
        assert(path.take(n as int) =~= path);
        text
    }
}

/// The character of a decimal digit.
pub open spec fn digit(d: nat) -> char {
    ('0' as int + d) as char
}

/// A natural number in decimal notation.
pub open spec fn decimal(n: nat) -> Seq<char>
    decreases n,
{
    if n < 10 {
        seq![digit(n)]
    } else {
        decimal(n / 10).push(digit(n % 10))
    }
}

/// An integer in decimal notation.
pub open spec fn int_text(n: int) -> Seq<char> {
    if n < 0 {
        seq!['-'] + decimal((-n) as nat)
    } else {
        decimal(n as nat)
    }
}

/// Appends a digit.
fn append_digit(text: &mut String, d: u64)
    requires
        d < 10,
    ensures
        final(text)@ == old(text)@.push(digit(d as nat)),
{
    let ghost before = text@;
    proof {
        reveal_strlit("0123456789");
    }
    let digits: &str = "0123456789";
    assert(digits@[d as int] == digit(d as nat));
    let i: usize = d as usize;
    assert(digits@.subrange(i as int, i + 1) =~= seq![digit(d as nat)]);
    text.append(digits.substring_char(i, i + 1));
    assert(text@ =~= before.push(digit(d as nat)));
}

/// Appends a natural number in decimal notation.
fn append_decimal(text: &mut String, n: u64)
    ensures
        final(text)@ == old(text)@ + decimal(n as nat),
    decreases n,
{
    let ghost before = text@;
    if n >= 10 {
        append_decimal(text, n / 10);
    }
    append_digit(text, n % 10);
    assert(text@ =~= before + decimal(n as nat));
}

/// Appends an integer in decimal notation.
fn append_int(text: &mut String, n: i64)
    ensures
        final(text)@ == old(text)@ + int_text(n as int),
{
    let ghost before = text@;
    if n < 0 {
        proof {
            reveal_strlit("-");
        }
        assert("-"@ =~= seq!['-']);
        text.append("-");
        append_decimal(text, (-(n as i128)) as u64);
        assert(text@ =~= before + int_text(n as int));
    } else {
        append_decimal(text, n as u64);
    }
}

impl SchemaDiffErrorView {
    /// The text of the error.
    pub open spec fn message(self) -> Seq<char> {
        match self {
            SchemaDiffErrorView::MissingFieldId { path } => {
                "Field at path '"@ + path_text(path) + "' is missing column mapping ID"@
            },
            SchemaDiffErrorView::DuplicateFieldId { id, path1, path2 } => {
                "Duplicate field ID "@ + int_text(id as int) + " found at paths '"@ + path_text(
                    path1,
                ) + "' and '"@ + path_text(path2) + "'"@
            },
            SchemaDiffErrorView::MissingPhysicalName { path } => {
                "Field at path '"@ + path_text(path)
                    + "' is missing physical name (required when column mapping is enabled)"@
            },
            SchemaDiffErrorView::PhysicalNameChanged { field_id, path, before, after } => {
                "Field with ID "@ + int_text(field_id as int) + " at path '"@ + path_text(path)
                    + "' has inconsistent physical names: '"@ + before + "' -> '"@ + after
                    + "'. Physical names must not change for the same field ID."@
            },
        }
    }
}

impl SchemaDiffError {
    /// The text of the error.
    pub fn message(&self) -> (r: String)
        ensures
            r@ == self@.message(),
    {
        let mut text: String = String::new();
        match self {
            SchemaDiffError::MissingFieldId { path } => {
                text.append("Field at path '");
                text.append(path.to_text().as_str());
                text.append("' is missing column mapping ID");
            },
            SchemaDiffError::DuplicateFieldId { id, path1, path2 } => {
                text.append("Duplicate field ID ");
                append_int(&mut text, *id);
                text.append(" found at paths '");
                text.append(path1.to_text().as_str());
                text.append("' and '");
                text.append(path2.to_text().as_str());
                text.append("'");
            },
            SchemaDiffError::MissingPhysicalName { path } => {
                text.append("Field at path '");
                text.append(path.to_text().as_str());
                text.append("' is missing physical name (required when column mapping is enabled)");
            },
            SchemaDiffError::PhysicalNameChanged { field_id, path, before, after } => {
                text.append("Field with ID ");
                append_int(&mut text, *field_id);
                text.append(" at path '");
                text.append(path.to_text().as_str());
                text.append("' has inconsistent physical names: '");
                text.append(before.as_str());
                text.append("' -> '");
                text.append(after.as_str());
                text.append("'. Physical names must not change for the same field ID.");
            },
        }
        assert(text@ =~= self@.message());
        text
    }
}

} // verus!
