//! Selecting what is cleaned, by target IDs and groups.

use crate::clean::{item_views, CleanableItem, ItemView};
use crate::target::{group_texts, is_known_target, known_target, target_id_texts, TargetGroup};
use crate::text::{
    concat2, law_split_at, law_split_none, split, split_on, str_eq, texts, trim, trimmed,
};
use vstd::prelude::*;

verus! {

/// The token selects the item: it names everything, its group or its ID.
pub open spec fn matched(token: Seq<char>, item: ItemView) -> bool {
    token == "all"@ || token == item.group.id_text() || token == item.id
}

/// The tokens of a selection: what commas part, without white space round it and
/// without the empty ones.
pub open spec fn tokens_of(input: Seq<char>) -> Seq<Seq<char>> {
    split(input, ',').map_values(|piece: Seq<char>| trimmed(piece)).filter(
        |token: Seq<char>| token.len() > 0,
    )
}

/// The numbers of the items that the token selects, in order.
pub open spec fn matching(token: Seq<char>, items: Seq<ItemView>) -> Seq<int>
    decreases items.len(),
{
    if items.len() == 0 {
        Seq::empty()
    } else {
        let before = matching(token, items.drop_last());
        if matched(token, items.last()) {
            before.push(items.len() - 1)
        } else {
            before
        }
    }
}

/// `selected` and behind it those of `more` that it does not hold.
pub open spec fn extended(selected: Seq<int>, more: Seq<int>) -> Seq<int>
    decreases more.len(),
{
    if more.len() == 0 {
        selected
    } else {
        let before = extended(selected, more.drop_last());
        if before.contains(more.last()) {
            before
        } else {
            before.push(more.last())
        }
    }
}

/// What the tokens select. A token that selects nothing is passed over if it names
/// a target, and else it is an error.
pub open spec fn chosen(tokens: Seq<Seq<char>>, items: Seq<ItemView>) -> Result<
    Seq<int>,
    Seq<char>,
>
    decreases tokens.len(),
{
    if tokens.len() == 0 {
        Ok(Seq::empty())
    } else {
        match chosen(tokens.drop_last(), items) {
            Err(error) => Err(error),
            Ok(selected) => {
                let found = matching(tokens.last(), items);
                if found.len() > 0 {
                    Ok(extended(selected, found))
                } else if known_target(tokens.last()) {
                    Ok(selected)
                } else {
                    Err("unknown clean target: "@ + tokens.last())
                }
            },
        }
    }
}

/// What a selection comes to: to select nothing is an error too.
pub open spec fn selection(input: Seq<char>, items: Seq<ItemView>) -> Result<
    Seq<int>,
    Seq<char>,
> {
    match chosen(tokens_of(input), items) {
        Err(error) => Err(error),
        Ok(selected) => if selected.len() == 0 {
            Err("no clean targets matched the current scan"@)
        } else {
            Ok(selected)
        },
    }
}

/// The numbers that a list of indices holds.
pub open spec fn numbers(indices: Seq<usize>) -> Seq<int> {
    indices.map_values(|i: usize| i as int)
}

/// What the result of a selection stands for.
pub open spec fn selection_view(r: Result<Vec<usize>, String>) -> Result<Seq<int>, Seq<char>> {
    match r {
        Ok(selected) => Ok(numbers(selected@)),
        Err(error) => Err(error@),
    }
}

/// Whether the token selects the item.
pub fn target_matches(token: &str, item: &CleanableItem) -> (r: bool)
    ensures
        r == matched(token@, item@),
{
    str_eq(token, "all") || str_eq(token, item.group.id()) || str_eq(token, item.id)
}

/// The tokens of a selection.
fn parse_tokens(input: &str) -> (r: Vec<String>)
    ensures
        texts(r@) == tokens_of(input@),
{
    let pieces = split_on(input, ',');
    let ghost all = split(input@, ',').map_values(|piece: Seq<char>| trimmed(piece));
    let ghost full = |token: Seq<char>| token.len() > 0;
    let mut out: Vec<String> = Vec::new();
    proof {
        reveal(Seq::filter);
        assert(texts(out@) =~= all.take(0).filter(full));
    }
    assert(texts(pieces@).len() == pieces@.len());
    for i in 0..pieces.len()
        invariant
            all == split(input@, ',').map_values(|piece: Seq<char>| trimmed(piece)),
            texts(pieces@) == split(input@, ','),
            pieces@.len() == all.len(),
            full == (|token: Seq<char>| token.len() > 0),
            texts(out@) == all.take(i as int).filter(full),
    {
        let ghost before = out@;
        proof {
            reveal(Seq::filter);
            assert(all.take(i + 1).drop_last() =~= all.take(i as int));
            assert(texts(pieces@)[i as int] == pieces@[i as int]@);
        }
        let token = trim(pieces[i].as_str());
        assert(token@ == all[i as int]);
        if !token.as_str().is_empty() {
            out.push(token);
            assert(texts(out@) =~= texts(before).push(all[i as int]));
        }
    }
    assert(all.take(pieces@.len() as int) =~= all);
    out
}

/// The numbers of the items that the token selects.
fn matching_items(token: &str, items: &[CleanableItem]) -> (r: Vec<usize>)
    ensures
        numbers(r@) == matching(token@, item_views(items@)),
{
    let mut out: Vec<usize> = Vec::new();
    let ghost all = item_views(items@);
    assert(numbers(out@) =~= matching(token@, all.take(0)));
    for i in 0..items.len()
        invariant
            all == item_views(items@),
            numbers(out@) == matching(token@, all.take(i as int)),
    {
        let ghost before = out@;
        assert(all.take(i + 1).drop_last() =~= all.take(i as int));
        assert(all.take(i + 1).last() == items@[i as int]@);
        if target_matches(token, &items[i]) {
            out.push(i);
            assert(numbers(out@) =~= numbers(before).push(i as int));
        }
    }
    assert(all.take(items@.len() as int) =~= all);
    out
}

/// Whether the list holds the number.
fn holds_index(list: &[usize], index: usize) -> (r: bool)
    ensures
        r == numbers(list@).contains(index as int),
{
    for i in 0..list.len()
        invariant
            forall|j: int| 0 <= j < i ==> list@[j] != index,
    {
        if list[i] == index {
            assert(numbers(list@)[i as int] == index);
            return true;
        }
    }
    assert forall|j: int| 0 <= j < numbers(list@).len() implies numbers(list@)[j] != index by {
        assert(list@[j] != index);
    }
    false
}

/// Appends to `selected` those of `more` that it does not hold.
fn extend_selection(selected: &mut Vec<usize>, more: &[usize])
    ensures
        numbers(final(selected)@) == extended(numbers(old(selected)@), numbers(more@)),
{
    let ghost start = numbers(selected@);
    let ghost all = numbers(more@);
    assert(all.take(0) =~= Seq::empty());
    for i in 0..more.len()
        invariant
            all == numbers(more@),
            numbers(selected@) == extended(start, all.take(i as int)),
    {
        let ghost before = selected@;
        assert(all.take(i + 1).drop_last() =~= all.take(i as int));
        assert(all.take(i + 1).last() == more@[i as int]);
        if !holds_index(selected.as_slice(), more[i]) {
            selected.push(more[i]);
            assert(numbers(selected@) =~= numbers(before).push(more@[i as int] as int));
        }
    }
    assert(all.take(more@.len() as int) =~= all);
}

/// The numbers of the items that a list of target IDs and groups selects, or why it
/// is rejected.
pub fn parse_clean_selection(input: &str, items: &[CleanableItem]) -> (r: Result<
    Vec<usize>,
    String,
>)
    ensures
        selection_view(r) == selection(input@, item_views(items@)),
{
    let tokens = parse_tokens(input);
    let ghost all = tokens_of(input@);
    let ghost views = item_views(items@);
    let mut selected: Vec<usize> = Vec::new();
    assert(numbers(selected@) =~= Seq::empty());
    for i in 0..tokens.len()
        invariant
            all == tokens_of(input@),
            texts(tokens@) == all,
            views == item_views(items@),
            chosen(all.take(i as int), views) == Ok::<Seq<int>, Seq<char>>(numbers(selected@)),
    {
        let token: &str = tokens[i].as_str();
        assert(texts(tokens@)[i as int] == tokens@[i as int]@);
        assert(all.take(i + 1).drop_last() =~= all.take(i as int));
        assert(all.take(i + 1).last() == token@);
        let found = matching_items(token, items);
        assert(numbers(found@).len() == found@.len());
        if found.len() == 0 {
            if !is_known_target(token) {
                proof {
                    lemma_error_stays(all, views, i + 1);
                }
                return Err(concat2("unknown clean target: ", token));
            }
        } else {
            extend_selection(&mut selected, found.as_slice());
        }
    }
    assert(all.take(tokens@.len() as int) =~= all) by {
        assert(texts(tokens@).len() == tokens@.len());
    }
    assert(numbers(selected@).len() == selected@.len());
    if selected.len() == 0 {
        return Err("no clean targets matched the current scan".to_owned());
    }
    Ok(selected)
}

proof fn lemma_error_stays(tokens: Seq<Seq<char>>, items: Seq<ItemView>, n: int)
    requires
        0 <= n <= tokens.len(),
        chosen(tokens.take(n), items) is Err,
    ensures
        chosen(tokens, items) == chosen(tokens.take(n), items),
    decreases tokens.len(),
{
    if n == tokens.len() {
        assert(tokens.take(n) =~= tokens);
    } else {
        let front = tokens.drop_last();
        assert(front.take(n) =~= tokens.take(n));
        lemma_error_stays(front, items, n);
    }
}

/// A token is at fault: it selects nothing and names no target.
pub open spec fn at_fault(token: Seq<char>, items: Seq<ItemView>) -> bool {
    !known_target(token) && forall|i: int|
        0 <= i < items.len() ==> !matched(token, #[trigger] items[i])
}

/// Some token selects the item.
pub open spec fn selected_by(tokens: Seq<Seq<char>>, item: ItemView) -> bool {
    exists|t: int| 0 <= t < tokens.len() && matched(#[trigger] tokens[t], item)
}

proof fn lemma_matching(token: Seq<char>, items: Seq<ItemView>)
    ensures
        forall|i: int|
            #[trigger] matching(token, items).contains(i) <==> 0 <= i < items.len() && matched(
                token,
                items[i],
            ),
        forall|a: int, b: int|
            0 <= a < b < matching(token, items).len() ==> #[trigger] matching(token, items)[a]
                < #[trigger] matching(token, items)[b],
    decreases items.len(),
{
    if items.len() > 0 {
        let front = items.drop_last();
        let before = matching(token, front);
        let all = matching(token, items);
        let last = items.len() - 1;
        lemma_matching(token, front);
        assert forall|i: int| #[trigger]
            all.contains(i) <==> 0 <= i < items.len() && matched(token, items[i]) by {
            if all.contains(i) {
                let k = choose|k: int| 0 <= k < all.len() && all[k] == i;
                if k < before.len() {
                    assert(before[k] == i);
                    assert(before.contains(i));
                    assert(front[i] == items[i]);
                }
            }
            if 0 <= i < items.len() && matched(token, items[i]) {
                if i < last {
                    assert(front[i] == items[i]);
                    assert(before.contains(i));
                    let k = choose|k: int| 0 <= k < before.len() && before[k] == i;
                    assert(all[k] == i);
                } else {
                    assert(all[before.len() as int] == i);
                }
            }
        }
        assert forall|a: int, b: int| 0 <= a < b < all.len() implies #[trigger] all[a]
            < #[trigger] all[b] by {
            assert(all[a] == before[a]);
            assert(before.contains(before[a]));
            if b < before.len() {
                assert(all[b] == before[b]);
            }
        }
    } else {
        assert forall|i: int| !(#[trigger] matching(token, items).contains(i)) by {}
    }
}

proof fn lemma_extended(selected: Seq<int>, more: Seq<int>)
    requires
        selected.no_duplicates(),
    ensures
        extended(selected, more).no_duplicates(),
        forall|i: int|
            #[trigger] extended(selected, more).contains(i) <==> selected.contains(i)
                || more.contains(i),
        selected.is_prefix_of(extended(selected, more)),
    decreases more.len(),
{
    let all = extended(selected, more);
    if more.len() == 0 {
        assert forall|i: int| #[trigger] all.contains(i) <==> selected.contains(i)
            || more.contains(i) by {}
        assert(selected.take(selected.len() as int) =~= selected);
    } else {
        let front = more.drop_last();
        let before = extended(selected, front);
        lemma_extended(selected, front);
        assert(before.take(selected.len() as int) == selected);
        assert forall|i: int| #[trigger] all.contains(i) <==> selected.contains(i)
            || more.contains(i) by {
            if more.contains(i) {
                let k = choose|k: int| 0 <= k < more.len() && more[k] == i;
                if k < front.len() {
                    assert(front[k] == i);
                    assert(front.contains(i));
                }
            }
            if front.contains(i) {
                let k = choose|k: int| 0 <= k < front.len() && front[k] == i;
                assert(more[k] == i);
            }
            if before.contains(i) {
                let k = choose|k: int| 0 <= k < before.len() && before[k] == i;
                assert(all[k] == i);
            }
            if all.contains(i) {
                let k = choose|k: int| 0 <= k < all.len() && all[k] == i;
                if k < before.len() {
                    assert(before[k] == i);
                    assert(before.contains(i));
                } else {
                    assert(more[more.len() - 1] == i);
                }
            }
            if !before.contains(more.last()) {
                assert(all[before.len() as int] == more.last());
            }
        }
        assert(all.take(selected.len() as int) =~= selected);
    }
}

/// What is selected is what some token matches: every item that a token of the
/// selection matches is selected, no other item is, and none is selected twice.
pub proof fn law_selection_exact(tokens: Seq<Seq<char>>, items: Seq<ItemView>)
    ensures
        chosen(tokens, items) matches Ok(selected) ==> {
            &&& selected.no_duplicates()
            &&& forall|i: int|
                #[trigger] selected.contains(i) <==> 0 <= i < items.len() && selected_by(
                    tokens,
                    items[i],
                )
        },
    decreases tokens.len(),
{
    if tokens.len() > 0 {
        let front = tokens.drop_last();
        law_selection_exact(front, items);
        if let Ok(before) = chosen(front, items) {
            if let Ok(selected) = chosen(tokens, items) {
                let found = matching(tokens.last(), items);
                lemma_matching(tokens.last(), items);
                lemma_extended(before, found);
                assert(found.len() == 0 ==> extended(before, found) == before);
                assert(selected == extended(before, found));
                assert forall|i: int| #[trigger]
                    selected.contains(i) <==> 0 <= i < items.len() && selected_by(
                        tokens,
                        items[i],
                    ) by {
                    if before.contains(i) {
                        let t = choose|t: int|
                            0 <= t < front.len() && matched(#[trigger] front[t], items[i]);
                        assert(matched(tokens[t], items[i]));
                    }
                    if found.contains(i) {
                        assert(matched(tokens[tokens.len() - 1], items[i]));
                    }
                    if 0 <= i < items.len() && selected_by(tokens, items[i]) {
                        let t = choose|t: int|
                            0 <= t < tokens.len() && matched(#[trigger] tokens[t], items[i]);
                        if t < front.len() {
                            assert(matched(front[t], items[i]));
                            assert(before.contains(i));
                        } else {
                            assert(found.contains(i));
                        }
                    }
                }
            }
        }
    }
}

proof fn lemma_at_fault(token: Seq<char>, items: Seq<ItemView>)
    ensures
        at_fault(token, items) <==> matching(token, items).len() == 0 && !known_target(token),
{
    let found = matching(token, items);
    lemma_matching(token, items);
    if found.len() > 0 {
        assert(found.contains(found[0]));
        assert(matched(token, items[found[0]]));
    } else {
        assert forall|i: int| 0 <= i < items.len() implies !matched(
            token,
            #[trigger] items[i],
        ) by {
            assert(!found.contains(i));
        }
    }
}

/// A selection is rejected for a token if and only if some token is at fault.
pub proof fn law_selection_error(tokens: Seq<Seq<char>>, items: Seq<ItemView>)
    ensures
        chosen(tokens, items) is Err <==> exists|t: int|
            0 <= t < tokens.len() && at_fault(#[trigger] tokens[t], items),
    decreases tokens.len(),
{
    if tokens.len() > 0 {
        let front = tokens.drop_last();
        let last = tokens.len() - 1;
        law_selection_error(front, items);
        lemma_at_fault(tokens[last], items);
        if chosen(front, items) is Err {
            let t = choose|t: int| 0 <= t < front.len() && at_fault(#[trigger] front[t], items);
            assert(at_fault(tokens[t], items));
        } else {
            assert forall|t: int| 0 <= t < last implies !at_fault(#[trigger] tokens[t], items) by {
                assert(tokens[t] == front[t]);
            }
        }
    }
}

/// The error of a selection names the first token that is at fault.
pub proof fn law_selection_error_names_first(
    tokens: Seq<Seq<char>>,
    items: Seq<ItemView>,
    t: int,
)
    requires
        0 <= t < tokens.len(),
        at_fault(tokens[t], items),
        forall|s: int| 0 <= s < t ==> !at_fault(#[trigger] tokens[s], items),
    ensures
        chosen(tokens, items) == Err::<Seq<int>, Seq<char>>(
            "unknown clean target: "@ + tokens[t],
        ),
{
    let front = tokens.take(t);
    let upto = tokens.take(t + 1);
    assert(upto.drop_last() =~= front);
    law_selection_error(front, items);
    assert forall|s: int| 0 <= s < front.len() implies !at_fault(#[trigger] front[s], items) by {
        assert(front[s] == tokens[s]);
    }
    lemma_at_fault(tokens[t], items);
    assert(upto.last() == tokens[t]);
    lemma_error_stays(tokens, items, t + 1);
}

/// The token for everything selects every item, in order.
pub proof fn law_all_selects_everything(items: Seq<ItemView>)
    ensures
        matching("all"@, items) == Seq::new(items.len(), |i: int| i),
    decreases items.len(),
{
    if items.len() > 0 {
        law_all_selects_everything(items.drop_last());
    }
    assert(matching("all"@, items) =~= Seq::new(items.len(), |i: int| i));
}

/// What a selection comes to: just the items that one of its tokens matches, each
/// once. It is rejected only if a token is at fault, or if no item is matched.
pub proof fn law_selection(input: Seq<char>, items: Seq<ItemView>)
    ensures
        match selection(input, items) {
            Ok(selected) => {
                &&& selected.len() > 0
                &&& selected.no_duplicates()
                &&& forall|i: int|
                    #[trigger] selected.contains(i) <==> 0 <= i < items.len() && selected_by(
                        tokens_of(input),
                        items[i],
                    )
            },
            Err(_) => {
                ||| exists|t: int|
                    0 <= t < tokens_of(input).len() && at_fault(
                        #[trigger] tokens_of(input)[t],
                        items,
                    )
                ||| forall|i: int|
                    0 <= i < items.len() ==> !selected_by(tokens_of(input), #[trigger] items[i])
            },
        },
{
    let tokens = tokens_of(input);
    law_selection_exact(tokens, items);
    law_selection_error(tokens, items);
    if let Ok(selected) = chosen(tokens, items) {
        if selected.len() == 0 {
            assert forall|i: int| 0 <= i < items.len() implies !selected_by(
                tokens,
                #[trigger] items[i],
            ) by {
                assert(!selected.contains(i));
            }
        }
    }
}

proof fn lemma_tokens_of_all()
    ensures
        tokens_of("all"@) == seq!["all"@],
{
    reveal_strlit("all");
    let s = "all"@;
    let a = s.take(1);
    let b = s.take(2);
    assert(s.drop_last() =~= b);
    assert(b.drop_last() =~= a);
    assert(a.drop_last() =~= Seq::<char>::empty());
    let none: Seq<Seq<char>> = Seq::empty();
    assert(split(a.drop_last(), ',') =~= none.push(Seq::<char>::empty()));
    assert(split(a, ',') =~= none.push(a)) by {
        assert(Seq::<char>::empty().push('a') =~= a);
    }
    assert(split(b, ',') =~= none.push(b)) by {
        assert(a.push('l') =~= b);
    }
    assert(split(s, ',') =~= none.push(s)) by {
        assert(b.push('l') =~= s);
    }
    assert(trimmed(s) == s);
    let full = |token: Seq<char>| token.len() > 0;
    let pieces = split(s, ',').map_values(|piece: Seq<char>| trimmed(piece));
    assert(pieces =~= none.push(s));
    reveal(Seq::filter);
    assert(pieces.drop_last() =~= none);
    assert(none.filter(full) =~= none);
    assert(pieces.filter(full) =~= seq![s]);
}

proof fn lemma_extend_from_nothing(more: Seq<int>)
    requires
        more.no_duplicates(),
    ensures
        extended(Seq::empty(), more) == more,
    decreases more.len(),
{
    if more.len() > 0 {
        let front = more.drop_last();
        lemma_extend_from_nothing(front);
        assert(!front.contains(more.last()));
        assert(front.push(more.last()) =~= more);
    }
}

/// Where there is anything to clean, the selection `all` is everything, in order.
pub proof fn law_clean_all(items: Seq<ItemView>)
    requires
        items.len() > 0,
    ensures
        selection("all"@, items) == Ok::<Seq<int>, Seq<char>>(
            Seq::new(items.len(), |i: int| i),
        ),
{
    let tokens = seq!["all"@];
    let everything = Seq::new(items.len(), |i: int| i);
    lemma_tokens_of_all();
    law_all_selects_everything(items);
    lemma_extend_from_nothing(everything);
    assert(tokens.drop_last() =~= Seq::<Seq<char>>::empty());
    assert(chosen(tokens.drop_last(), items) == Ok::<Seq<int>, Seq<char>>(Seq::empty()));
}

/// A token selects everything, or one of the groups, or the target whose ID it is, and
/// nothing else.
pub proof fn law_token_selects(token: Seq<char>, item: ItemView)
    ensures
        matched(token, item) <==> {
            ||| token == "all"@
            ||| token == "caches"@ && item.group == TargetGroup::Caches
            ||| token == "projects"@ && item.group == TargetGroup::Projects
            ||| token == "docker"@ && item.group == TargetGroup::Docker
            ||| token == item.id
        },
{
}

/// Commas part the tokens: what stands before one and what stands behind it are read on
/// their own.
pub proof fn law_commas_part_tokens(a: Seq<char>, b: Seq<char>)
    ensures
        tokens_of(a + seq![','] + b) == tokens_of(a) + tokens_of(b),
{
    let trim = |piece: Seq<char>| trimmed(piece);
    let full = |token: Seq<char>| token.len() > 0;
    law_split_at(a, b, ',');
    let x = split(a, ',').map_values(trim);
    let y = split(b, ',').map_values(trim);
    assert((split(a, ',') + split(b, ',')).map_values(trim) =~= x + y);
    Seq::filter_distributes_over_add(x, y, full);
}

/// What holds no comma is one token, without the white space round it; where nothing is
/// left, it is none.
pub proof fn law_one_token(input: Seq<char>)
    requires
        forall|i: int| 0 <= i < input.len() ==> input[i] != ',',
    ensures
        tokens_of(input) == if trimmed(input).len() == 0 {
            Seq::empty()
        } else {
            seq![trimmed(input)]
        },
{
    let full = |token: Seq<char>| token.len() > 0;
    law_split_none(input, ',');
    let pieces = split(input, ',').map_values(|piece: Seq<char>| trimmed(piece));
    assert(pieces =~= seq![trimmed(input)]);
    reveal(Seq::filter);
    assert(pieces.drop_last() =~= Seq::empty());
    assert(pieces.drop_last().filter(full) =~= Seq::empty());
    assert(pieces.filter(full) =~= if trimmed(input).len() == 0 {
        Seq::empty()
    } else {
        seq![trimmed(input)]
    });
}

/// One more token adds behind what the others select the items that it stands for and
/// that are not selected yet, in their order. A token that stands for no item is passed
/// over if it names a group or a target, and else it is the error, unless one before it
/// was.
pub proof fn law_next_token(tokens: Seq<Seq<char>>, token: Seq<char>, items: Seq<ItemView>)
    ensures
        match chosen(tokens, items) {
            Err(error) => chosen(tokens.push(token), items) == Err::<Seq<int>, Seq<char>>(error),
            Ok(before) => match chosen(tokens.push(token), items) {
                Ok(after) => {
                    &&& before.is_prefix_of(after)
                    &&& forall|a: int, b: int|
                        before.len() <= a < b < after.len() ==> #[trigger] after[a]
                            < #[trigger] after[b]
                    &&& forall|i: int| #[trigger]
                        after.contains(i) <==> before.contains(i) || 0 <= i < items.len() && {
                            ||| token == "all"@
                            ||| token == "caches"@ && items[i].group == TargetGroup::Caches
                            ||| token == "projects"@ && items[i].group == TargetGroup::Projects
                            ||| token == "docker"@ && items[i].group == TargetGroup::Docker
                            ||| token == items[i].id
                        }
                    &&& {
                        ||| token == "all"@ || token == "caches"@ || token == "projects"@
                        ||| token == "docker"@ || target_id_texts().contains(token)
                        ||| exists|i: int| 0 <= i < items.len() && (#[trigger] items[i]).id == token
                    }
                },
                Err(error) => {
                    &&& error == "unknown clean target: "@ + token
                    &&& token != "all"@ && token != "caches"@ && token != "projects"@ && token
                        != "docker"@
                    &&& !target_id_texts().contains(token)
                    &&& forall|i: int| 0 <= i < items.len() ==> (#[trigger] items[i]).id != token
                },
            },
        },
{
    let all = tokens.push(token);
    assert(all.drop_last() =~= tokens);
    let found = matching(token, items);
    lemma_matching(token, items);
    lemma_at_fault(token, items);
    assert(group_texts()[0] == "all"@ && group_texts()[1] == "caches"@ && group_texts()[2]
        == "projects"@ && group_texts()[3] == "docker"@);
    if let Ok(before) = chosen(tokens, items) {
        law_selection_exact(tokens, items);
        lemma_extended(before, found);
        lemma_extended_order(before, found);
        assert(found.len() == 0 ==> extended(before, found) == before);
        if let Err(error) = chosen(all, items) {
            assert forall|i: int| 0 <= i < items.len() implies (#[trigger] items[i]).id
                != token by {
                assert(!matched(token, items[i]));
            }
        }
    }
}

proof fn lemma_extended_order(selected: Seq<int>, more: Seq<int>)
    requires
        selected.no_duplicates(),
        forall|a: int, b: int| 0 <= a < b < more.len() ==> #[trigger] more[a] < #[trigger] more[b],
    ensures
        forall|a: int, b: int|
            selected.len() <= a < b < extended(selected, more).len() ==> #[trigger] extended(
                selected,
                more,
            )[a] < #[trigger] extended(selected, more)[b],
        forall|a: int|
            selected.len() <= a < extended(selected, more).len() ==> more.contains(
                #[trigger] extended(selected, more)[a],
            ),
    decreases more.len(),
{
    if more.len() > 0 {
        let front = more.drop_last();
        let before = extended(selected, front);
        let all = extended(selected, more);
        lemma_extended(selected, front);
        lemma_extended_order(selected, front);
        assert forall|a: int| selected.len() <= a < all.len() implies more.contains(
            #[trigger] all[a],
        ) by {
            if a < before.len() {
                assert(all[a] == before[a]);
                assert(front.contains(before[a]));
                let k = choose|k: int| 0 <= k < front.len() && front[k] == before[a];
                assert(more[k] == all[a]);
            } else {
                assert(more[more.len() - 1] == all[a]);
            }
        }
        assert forall|a: int, b: int| selected.len() <= a < b < all.len() implies #[trigger] all[a]
            < #[trigger] all[b] by {
            assert(all[a] == before[a]);
            if b < before.len() {
                assert(all[b] == before[b]);
            } else {
                assert(front.contains(before[a]));
                let k = choose|k: int| 0 <= k < front.len() && front[k] == before[a];
                assert(more[k] < more[more.len() - 1]);
            }
        }
    }
}

/// A selection without commas is about one token: it selects the items of the group that
/// the token names, or every item, or the items with the token as their ID, and no other,
/// in their order. Where there are none it is rejected: the token is unknown, or else
/// nothing of it was found.
pub proof fn law_single_selection(input: Seq<char>, items: Seq<ItemView>)
    requires
        forall|i: int| 0 <= i < input.len() ==> input[i] != ',',
    ensures
        ({
            let token = trimmed(input);
            match selection(input, items) {
                Ok(selected) => {
                    &&& selected.len() > 0
                    &&& forall|a: int, b: int|
                        0 <= a < b < selected.len() ==> #[trigger] selected[a]
                            < #[trigger] selected[b]
                    &&& forall|i: int| #[trigger]
                        selected.contains(i) <==> 0 <= i < items.len() && {
                            ||| token == "all"@
                            ||| token == "caches"@ && items[i].group == TargetGroup::Caches
                            ||| token == "projects"@ && items[i].group == TargetGroup::Projects
                            ||| token == "docker"@ && items[i].group == TargetGroup::Docker
                            ||| token == items[i].id && token.len() > 0
                        }
                },
                Err(error) => {
                    &&& forall|i: int|
                        0 <= i < items.len() && token.len() > 0 ==> (#[trigger] items[i]).id
                            != token && token != "all"@ && !(token == "caches"@ && items[i].group
                            == TargetGroup::Caches) && !(token == "projects"@ && items[i].group
                            == TargetGroup::Projects) && !(token == "docker"@ && items[i].group
                            == TargetGroup::Docker)
                    &&& error == if token.len() == 0 || token == "all"@ || token == "caches"@
                        || token == "projects"@ || token == "docker"@
                        || target_id_texts().contains(token) {
                        "no clean targets matched the current scan"@
                    } else {
                        "unknown clean target: "@ + token
                    }
                },
            }
        }),
{
    reveal_strlit("all");
    reveal_strlit("caches");
    reveal_strlit("projects");
    reveal_strlit("docker");
    let token = trimmed(input);
    let none: Seq<Seq<char>> = Seq::empty();
    law_one_token(input);
    if token.len() > 0 {
        assert(none.push(token) =~= seq![token]);
        law_next_token(none, token, items);
        lemma_at_fault(token, items);
        lemma_matching(token, items);
        assert(group_texts()[0] == "all"@ && group_texts()[1] == "caches"@ && group_texts()[2]
            == "projects"@ && group_texts()[3] == "docker"@);
        if let Ok(selected) = chosen(tokens_of(input), items) {
            assert forall|i: int| 0 <= i < items.len() && selected.len() == 0 implies !matched(
                token,
                #[trigger] items[i],
            ) by {
                assert(!selected.contains(i));
            }
        }
    }
}

} // verus!
