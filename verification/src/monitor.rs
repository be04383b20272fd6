//! The status display: the table that it shows of the receiver's assemblies.

use vstd::prelude::*;

use crate::control::messages::{AssemblyState, ReceiverStatus};
use crate::text::{decimal, decimal_i64, decimal_int, decimal_u128, decimal_u64};

verus! {

/// A text made at least ten characters long with spaces in front.
pub open spec fn right_aligned(s: Seq<char>) -> Seq<char>
    decreases 10 - s.len(),
{
    if s.len() >= 10 {
        s
    } else {
        right_aligned(seq![' '] + s)
    }
}

/// Makes a text at least ten characters long with spaces in front.
fn align_right(s: String) -> (text: String)
    ensures
        text@ == right_aligned(s@),
{
    let mut text = s;
    while text.as_str().unicode_len() < 10
        invariant
            right_aligned(text@) == right_aligned(s@),
        decreases 10 - text@.len(),
    {
        let mut longer = String::new();
        longer.push(' ');
        longer.append(text.as_str());
        assert(longer@ =~= seq![' '] + text@);
        text = longer;
    }
    text
}

/// The table's line for an assembly.
pub open spec fn row(a: AssemblyState) -> Seq<char> {
    right_aligned(decimal_int(a.file_id as int)) + " "@ + right_aligned(
        decimal(a.chunks_received as nat),
    ) + " "@ + right_aligned(decimal(a.chunks_total as nat)) + " "@ + right_aligned(
        decimal(a.age_secs as nat),
    ) + "  "@ + (if a.has_name {
        "yes"@
    } else {
        "no"@
    }) + "\n"@
}

/// The table's lines for a list of assemblies.
pub open spec fn rows(list: Seq<AssemblyState>) -> Seq<char>
    decreases list.len(),
{
    if list.len() == 0 {
        seq![]
    } else {
        rows(list.drop_last()) + row(list.last())
    }
}

/// How many chunks have been received in all.
pub open spec fn received(list: Seq<AssemblyState>) -> nat
    decreases list.len(),
{
    if list.len() == 0 {
        0
    } else {
        received(list.drop_last()) + list.last().chunks_received as nat
    }
}

/// The display for a status report.
pub open spec fn display(bind: Seq<char>, list: Seq<AssemblyState>) -> Seq<char> {
    "parachuter monitor — receiver "@ + bind
        + "\n\n   file_id   received      total      age_s  has_name\n"@ + rows(list)
        + "\nin-flight: "@ + decimal(list.len()) + "  total chunks received: "@ + decimal(
        received(list),
    ) + "\n"@
}

/// Appends the table's line for an assembly.
fn append_row(text: &mut String, a: &AssemblyState)
    ensures
        final(text)@ == old(text)@ + row(*a),
{
    text.append(align_right(decimal_i64(a.file_id)).as_str());
    text.append(" ");
    text.append(align_right(decimal_u64(a.chunks_received as u64)).as_str());
    text.append(" ");
    text.append(align_right(decimal_u64(a.chunks_total as u64)).as_str());
    text.append(" ");
    text.append(align_right(decimal_u64(a.age_secs)).as_str());
    text.append("  ");
    if a.has_name {
        text.append("yes");
    } else {
        text.append("no");
    }
    text.append("\n");
    assert(text@ =~= old(text)@ + row(*a));
}

/// Writes the display for a status report.
pub fn render(s: &ReceiverStatus) -> (text: String)
    ensures
        text@ == display(s.bind@, s.assemblies@),
{
    let mut text = "parachuter monitor — receiver ".to_owned();
    text.append(s.bind.as_str());
    text.append("\n\n   file_id   received      total      age_s  has_name\n");
    let ghost head = text@;
    let mut total: u128 = 0;
    let mut i: usize = 0;
    let list = &s.assemblies;
    assert(list@.take(0) =~= Seq::empty());
    assert(head + rows(list@.take(0)) =~= head);
    while i < list.len()
        invariant
            i <= list@.len(),
            text@ == head + rows(list@.take(i as int)),
            total == received(list@.take(i as int)),
            total <= i * 0xFFFF_FFFF,
        decreases list@.len() - i,
    {
        let a = list[i];
        assert(list@.take(i + 1).drop_last() =~= list@.take(i as int));
        append_row(&mut text, &a);
        assert(text@ =~= head + rows(list@.take(i + 1)));
        total = total + a.chunks_received as u128;
        i += 1;
    }
    assert(list@.take(list@.len() as int) =~= list@);
    text.append("\nin-flight: ");
    text.append(decimal_u64(list.len() as u64).as_str());
    text.append("  total chunks received: ");
    text.append(decimal_u128(total).as_str());
    text.append("\n");
    text
}

/// A text is filled up with spaces in front, to ten characters, and not cut where it is longer.
pub proof fn law_alignment(s: Seq<char>)
    ensures
        right_aligned(s).len() == if s.len() < 10 {
            10
        } else {
            s.len()
        },
        right_aligned(s).skip(right_aligned(s).len() - s.len()) == s,
        forall|i: int|
            0 <= i < right_aligned(s).len() - s.len() ==> #[trigger] right_aligned(s)[i] == ' ',
    decreases 10 - s.len(),
{
    if s.len() < 10 {
        let longer = seq![' '] + s;
        law_alignment(longer);
        let r = right_aligned(s);
        let n = r.len() - longer.len();
        assert(r.skip(n) == longer);
        assert(r.skip(n + 1) =~= s) by {
            assert(r.skip(n).skip(1) =~= r.skip(n + 1));
            assert(longer.skip(1) =~= s);
        }
        assert forall|i: int| 0 <= i < r.len() - s.len() implies #[trigger] r[i] == ' ' by {
            if i == n {
                assert(r.skip(n)[0] == r[n]);
            }
        }
    } else {
        assert(s.skip(0) =~= s);
    }
}

/// The table has a line for each assembly, in order, and the chunks received add up.
pub proof fn law_table_goes_line_by_line(
    first: Seq<AssemblyState>,
    others: Seq<AssemblyState>,
    a: AssemblyState,
)
    ensures
        rows(first + others) == rows(first) + rows(others),
        rows(seq![a]) == row(a),
        rows(Seq::empty()).len() == 0,
        received(first + others) == received(first) + received(others),
        received(seq![a]) == a.chunks_received,
        received(Seq::empty()) == 0,
    decreases others.len(),
{
    assert(seq![a].drop_last() =~= Seq::empty());
    reveal_with_fuel(rows, 2);
    reveal_with_fuel(received, 2);
    assert(rows(seq![a]) =~= row(a));
    let all = first + others;
    if others.len() == 0 {
        assert(all =~= first);
        assert(rows(all) =~= rows(first) + rows(others));
    } else {
        assert(all.drop_last() =~= first + others.drop_last());
        law_table_goes_line_by_line(first, others.drop_last(), a);
        assert(rows(all) =~= rows(first) + rows(others));
    }
}

/// What a line of the table says, from left to right: the id, the chunks received, the chunks in
/// all, the age, and whether the name is known.
pub proof fn law_what_a_line_says(a: AssemblyState)
    ensures
        row(a) == right_aligned(decimal_int(a.file_id as int)) + " "@ + right_aligned(
            decimal_int(a.chunks_received as int),
        ) + " "@ + right_aligned(decimal_int(a.chunks_total as int)) + " "@ + right_aligned(
            decimal_int(a.age_secs as int),
        ) + "  "@ + (if a.has_name {
            "yes"@
        } else {
            "no"@
        }) + "\n"@,
{
}

/// What the display says: a heading with the receiver's address, the names of the columns, the
/// table, and behind it how many assemblies there are and how many chunks they have in all.
pub proof fn law_what_the_display_says(bind: Seq<char>, list: Seq<AssemblyState>)
    ensures
        display(bind, list) == "parachuter monitor — receiver "@ + bind
            + "\n\n   file_id   received      total      age_s  has_name\n"@ + rows(list)
            + "\nin-flight: "@ + decimal_int(list.len() as int) + "  total chunks received: "@
            + decimal_int(received(list) as int) + "\n"@,
{
}

/// What is shown of a status report: its address, and for each assembly in order the line that tells
/// of it, then how many there are and what they have received in all.
pub proof fn law_what_is_shown(s: ReceiverStatus, text: String)
    requires
        call_ensures(render, (&s,), text),
    ensures
        text@ == "parachuter monitor — receiver "@ + s.bind@
            + "\n\n   file_id   received      total      age_s  has_name\n"@ + rows(s.assemblies@)
            + "\nin-flight: "@ + decimal_int(s.assemblies@.len() as int)
            + "  total chunks received: "@ + decimal_int(received(s.assemblies@) as int) + "\n"@,
{
}

} // verus!
