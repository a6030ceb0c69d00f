use vstd::prelude::*;
use vstd::string::*;

verus! {

/// How placeholders are written: `?1`, `?2`, ... numbered by position among the
/// bound parameters, or a bare `?` each, consumed in order.
#[derive(Debug, Clone, Copy, PartialEq, Eq)]
pub enum PlaceholderStyle {
    Numbered,
    Sequential,
}

pub open spec fn digit_text(d: nat) -> Seq<char> {
    "0123456789"@.subrange(d as int, (d + 1) as int)
}

/// The decimal digits of `n`, most significant first.
pub open spec fn decimal(n: nat) -> Seq<char>
    decreases n,
{
    if n < 10 {
        digit_text(n)
    } else {
        decimal(n / 10) + digit_text(n % 10)
    }
}

/// The placeholder of the `k`-th bound parameter, counted from 1.
pub open spec fn placeholder(style: PlaceholderStyle, k: nat) -> Seq<char> {
    match style {
        PlaceholderStyle::Numbered => "?"@ + decimal(k),
        PlaceholderStyle::Sequential => "?"@,
    }
}

/// The positions `i` with `flags[i]`, in increasing order.
pub open spec fn selected(flags: Seq<bool>) -> Seq<int>
    decreases flags.len(),
{
    if flags.len() == 0 {
        Seq::empty()
    } else if flags.last() {
        selected(flags.drop_last()).push(flags.len() - 1)
    } else {
        selected(flags.drop_last())
    }
}

/// `sep` before each item, all concatenated.
pub open spec fn chain(items: Seq<Seq<char>>, sep: Seq<char>) -> Seq<char>
    decreases items.len(),
{
    if items.len() == 0 {
        Seq::empty()
    } else {
        chain(items.drop_last(), sep) + sep + items.last()
    }
}

/// The items with `sep` between each two of them.
pub open spec fn join(items: Seq<Seq<char>>, sep: Seq<char>) -> Seq<char>
    decreases items.len(),
{
    if items.len() == 0 {
        Seq::empty()
    } else if items.len() == 1 {
        items[0]
    } else {
        join(items.drop_last(), sep) + sep + items.last()
    }
}

/// What each clause of a list shows of its field.
#[derive(Debug, Clone, Copy, PartialEq, Eq)]
pub enum ClauseForm {
    /// The column name alone.
    Column,
    /// The placeholder alone.
    Slot,
    /// `name = placeholder`.
    Assign,
}

/// One clause for the field `name`, bound to the `k`-th parameter.
pub open spec fn clause(form: ClauseForm, name: Seq<char>, style: PlaceholderStyle, k: nat) -> Seq<
    char,
> {
    match form {
        ClauseForm::Column => name,
        ClauseForm::Slot => placeholder(style, k),
        ClauseForm::Assign => name + " = "@ + placeholder(style, k),
    }
}

/// One clause for each selected position, the parameters numbered on from `start`.
pub open spec fn clauses(
    form: ClauseForm,
    names: Seq<Seq<char>>,
    pos: Seq<int>,
    style: PlaceholderStyle,
    start: nat,
) -> Seq<Seq<char>> {
    Seq::new(pos.len(), |k: int| clause(form, names[pos[k]], style, (start + k) as nat))
}

/// The elements of `vals` at the positions `pos`, in that order.
pub open spec fn pick<T>(vals: Seq<T>, pos: Seq<int>) -> Seq<T> {
    Seq::new(pos.len(), |k: int| vals[pos[k]])
}

pub proof fn lemma_selected_step(flags: Seq<bool>, i: int)
    requires
        0 <= i < flags.len(),
    ensures
        selected(flags.take(i + 1)) == (if flags[i] {
            selected(flags.take(i)).push(i)
        } else {
            selected(flags.take(i))
        }),
{
    assert(flags.take(i + 1).drop_last() =~= flags.take(i));
}

pub proof fn lemma_selected_prefix(flags: Seq<bool>, i: int)
    requires
        0 <= i <= flags.len(),
    ensures
        selected(flags.take(i)).len() <= selected(flags).len(),
    decreases flags.len(),
{
    if i < flags.len() {
        let rest = flags.drop_last();
        assert(flags.take(i) =~= rest.take(i));
        lemma_selected_prefix(rest, i);
    } else {
        assert(flags.take(i) =~= flags);
    }
}

/// Flags and their negation select as many positions as there are flags.
pub proof fn lemma_selected_complement(a: Seq<bool>, b: Seq<bool>)
    requires
        a.len() == b.len(),
        forall|i: int| 0 <= i < a.len() ==> #[trigger] b[i] == !a[i],
    ensures
        selected(a).len() + selected(b).len() == a.len(),
    decreases a.len(),
{
    if a.len() > 0 {
        lemma_selected_complement(a.drop_last(), b.drop_last());
    }
}

pub proof fn lemma_join_step(items: Seq<Seq<char>>, item: Seq<char>, sep: Seq<char>)
    ensures
        join(items.push(item), sep) == (if items.len() == 0 {
            item
        } else {
            join(items, sep) + sep + item
        }),
{
    assert(items.push(item).drop_last() =~= items);
}

pub proof fn lemma_selected_bounds(flags: Seq<bool>)
    ensures
        selected(flags).len() <= flags.len(),
        forall|k: int|
            0 <= k < selected(flags).len() ==> 0 <= #[trigger] selected(flags)[k] < flags.len()
                && flags[selected(flags)[k]],
        forall|a: int, b: int|
            0 <= a < b < selected(flags).len() ==> #[trigger] selected(flags)[a]
                < #[trigger] selected(flags)[b],
        forall|i: int|
            0 <= i < flags.len() && #[trigger] flags[i] ==> selected(flags).contains(i),
    decreases flags.len(),
{
    if flags.len() > 0 {
        let rest = flags.drop_last();
        lemma_selected_bounds(rest);
        assert forall|i: int| 0 <= i < flags.len() && #[trigger] flags[i] implies selected(
            flags,
        ).contains(i) by {
            if i < flags.len() - 1 {
                assert(rest[i] == flags[i]);
                let w = choose|w: int| 0 <= w < selected(rest).len() && selected(rest)[w] == i;
                assert(selected(flags)[w] == i);
            } else {
                assert(selected(flags).last() == i);
            }
        }
    }
}

/// Appends the decimal digits of `n`.
pub fn push_decimal(out: &mut String, n: usize)
    ensures
        final(out)@ == old(out)@ + decimal(n as nat),
    decreases n,
{
    proof {
        reveal_strlit("0123456789");
    }
    let digits = "0123456789";
    if n >= 10 {
        push_decimal(out, n / 10);
    }
    let d = n % 10;
    out.append(digits.substring_char(d, d + 1));
    proof {
        if n >= 10 {
            assert(final(out)@ =~= old(out)@ + decimal(n as nat));
        }
    }
}

/// Appends the placeholder of the `k`-th bound parameter.
pub fn push_placeholder(out: &mut String, style: PlaceholderStyle, k: usize)
    ensures
        final(out)@ == old(out)@ + placeholder(style, k as nat),
{
    out.append("?");
    match style {
        PlaceholderStyle::Numbered => {
            push_decimal(out, k);
            assert(final(out)@ =~= old(out)@ + placeholder(style, k as nat));
        },
        PlaceholderStyle::Sequential => {},
    }
}

} // verus!
