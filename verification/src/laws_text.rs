//! What paths and errors are as text.

use crate::error::SchemaDiffErrorView;
use crate::text::{backticks_doubled, decimal, digit, int_text, name_text, path_text};
use vstd::prelude::*;

verus! {

/// A name of ASCII letters, digits and underscores that does not start with a digit stands for
/// itself. Any other name stands between backticks, with each of its own backticks doubled.
pub proof fn law_text_of_a_name(name: Seq<char>)
    ensures
        ({
            let plain = name.len() > 0 && !('0' <= name[0] <= '9') && forall|i: int|
                0 <= i < name.len() ==> {
                    let c = #[trigger] name[i];
                    'a' <= c <= 'z' || 'A' <= c <= 'Z' || '0' <= c <= '9' || c == '_'
                };
            &&& plain ==> name_text(name) == name
            &&& !plain ==> name_text(name) == seq!['`'] + backticks_doubled(name) + seq!['`']
        }),
{
}

/// Doubling backticks takes each character of a text by itself: a backtick gives two, any other
/// character gives itself.
pub proof fn law_doubled_backticks(s: Seq<char>, t: Seq<char>, c: char)
    ensures
        backticks_doubled(s + t) == backticks_doubled(s) + backticks_doubled(t),
        backticks_doubled(seq![c]) == if c == '`' {
            seq!['`', '`']
        } else {
            seq![c]
        },
    decreases t.len(),
{
    let one = seq![c];
    assert(one.drop_last() =~= seq![]);
    assert(backticks_doubled(one.drop_last()) =~= seq![]);
    assert(backticks_doubled(one) =~= if c == '`' {
        seq!['`', '`']
    } else {
        seq![c]
    });
    if t.len() == 0 {
        assert(s + t =~= s);
        assert(backticks_doubled(s + t) =~= backticks_doubled(s) + backticks_doubled(t));
    } else {
        law_doubled_backticks(s, t.drop_last(), c);
        assert((s + t).drop_last() =~= s + t.drop_last());
        assert((s + t).last() == t.last());
        assert(backticks_doubled(s + t) =~= backticks_doubled(s) + backticks_doubled(t));
    }
}

/// The text of no names is empty, that of one name is the text of that name, and that of two paths
/// one after the other is their texts with a dot between them.
pub proof fn law_text_of_a_path(p: Seq<Seq<char>>, q: Seq<Seq<char>>, name: Seq<char>)
    ensures
        path_text(seq![]) == Seq::<char>::empty(),
        path_text(seq![name]) == name_text(name),
        p.len() > 0 && q.len() > 0 ==> path_text(p + q) == path_text(p) + seq!['.'] + path_text(q),
    decreases q.len(),
{
    assert(path_text(seq![]) =~= Seq::<char>::empty());
    if p.len() > 0 && q.len() > 0 {
        let both = p + q;
        assert(both.drop_last() =~= p + q.drop_last());
        assert(both.last() == q.last());
        if q.len() == 1 {
            assert(both.drop_last() =~= p);
            assert(path_text(both) =~= path_text(p) + seq!['.'] + path_text(q));
        } else {
            law_text_of_a_path(p, q.drop_last(), name);
            assert(path_text(both) =~= path_text(p) + seq!['.'] + path_text(q));
        }
    }
}

/// The number that a text of digits stands for.
pub open spec fn value_of(digits: Seq<char>) -> int
    decreases digits.len(),
{
    if digits.len() == 0 {
        0
    } else {
        value_of(digits.drop_last()) * 10 + (digits.last() as int - '0' as int)
    }
}

/// The text of a number that is not negative has digits only, is not empty, does not start with a
/// zero unless the number is less than ten, and stands for the number. The text of a negative number
/// is a minus sign and the text of its opposite.
pub proof fn law_text_of_a_number(n: int)
    ensures
        n >= 0 ==> {
            let text = int_text(n);
            &&& text.len() > 0
            &&& forall|i: int| 0 <= i < text.len() ==> '0' <= #[trigger] text[i] <= '9'
            &&& value_of(text) == n
            &&& n >= 10 ==> text[0] != '0'
            &&& n < 10 ==> text.len() == 1
        },
        n < 0 ==> int_text(n) == seq!['-'] + int_text(-n),
{
    if n >= 0 {
        lemma_decimal(n as nat);
    }
}

proof fn lemma_decimal(n: nat)
    ensures
        ({
            let text = decimal(n);
            &&& text.len() > 0
            &&& forall|i: int| 0 <= i < text.len() ==> '0' <= #[trigger] text[i] <= '9'
            &&& value_of(text) == n
            &&& n > 0 ==> text[0] != '0'
            &&& n < 10 ==> text.len() == 1
        }),
    decreases n,
{
    if n < 10 {
        let text = seq![digit(n)];
        assert(text.drop_last() =~= seq![]);
        assert(value_of(text.drop_last()) == 0);
        assert(value_of(text) == n);
    } else {
        lemma_decimal(n / 10);
        let text = decimal(n);
        assert(text.drop_last() =~= decimal(n / 10));
        assert(text.last() == digit(n % 10));
    }
}

/// Each error says what is wrong and where.
pub proof fn law_messages(
    id: i64,
    path1: Seq<Seq<char>>,
    path2: Seq<Seq<char>>,
    name1: Seq<char>,
    name2: Seq<char>,
)
    ensures
        (SchemaDiffErrorView::MissingFieldId { path: path1 }).message() == "Field at path '"@
            + path_text(path1) + "' is missing column mapping ID"@,
        (SchemaDiffErrorView::DuplicateFieldId { id, path1, path2 }).message()
            == "Duplicate field ID "@ + int_text(id as int) + " found at paths '"@ + path_text(
            path1,
        ) + "' and '"@ + path_text(path2) + "'"@,
        (SchemaDiffErrorView::MissingPhysicalName { path: path1 }).message() == "Field at path '"@
            + path_text(path1)
            + "' is missing physical name (required when column mapping is enabled)"@,
        (SchemaDiffErrorView::PhysicalNameChanged {
            field_id: id,
            path: path1,
            before: name1,
            after: name2,
        }).message() == "Field with ID "@ + int_text(id as int) + " at path '"@ + path_text(path1)
            + "' has inconsistent physical names: '"@ + name1 + "' -> '"@ + name2
            + "'. Physical names must not change for the same field ID."@,
{
}

} // verus!
