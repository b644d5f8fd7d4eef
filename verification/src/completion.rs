//! Which names are offered for completion.
use crate::protocol::CompletionItem;
use crate::protocol::CompletionItemKind;
use crate::syntax::Symbol;
use crate::syntax::Ty;
use crate::text::chars_of;
use vstd::prelude::*;

verus! {

/// What a name of a type is offered as.
pub open spec fn completion_kind(ty: Ty) -> CompletionItemKind {
    match ty {
        Ty::Function => CompletionItemKind::Function,
        Ty::Struct => CompletionItemKind::Struct,
        _ => CompletionItemKind::Variable,
    }
}

/// A symbol as it is offered.
pub open spec fn completion_item(symbol: Symbol) -> CompletionItem {
    CompletionItem { label: symbol.name, kind: completion_kind(symbol.ty) }
}

/// Whether a symbol's name starts with what has been typed.
pub open spec fn starts_with(symbol: Symbol, prefix: Seq<char>) -> bool {
    prefix.is_prefix_of(symbol.name@)
}

/// The symbols whose names start with what has been typed, in the order in
/// which the module lists them.
pub open spec fn completions(symbols: Seq<Symbol>, prefix: Seq<char>) -> Seq<CompletionItem> {
    symbols.filter(|symbol: Symbol| starts_with(symbol, prefix)).map_values(
        |symbol: Symbol| completion_item(symbol),
    )
}

/// Whether a string starts with another one.
fn has_prefix(name: &str, prefix: &str) -> (answer: bool)
    ensures
        answer == prefix@.is_prefix_of(name@),
{
    let wanted = chars_of(prefix);
    let chars = chars_of(name);
    if wanted.len() > chars.len() {
        return false;
    }
    let mut i: usize = 0;
    while i < wanted.len()
        invariant
            i <= wanted@.len() <= chars@.len(),
            wanted@ == prefix@,
            chars@ == name@,
            forall|k: int| 0 <= k < i ==> wanted@[k] == chars@[k],
        decreases wanted@.len() - i,
    {
        if wanted[i] != chars[i] {
            proof {
                assert(name@.subrange(0, wanted@.len() as int)[i as int] == name@[i as int]);
            }
            return false;
        }
        i = i + 1;
    }
    proof {
        assert(prefix@ == name@.subrange(0, wanted@.len() as int));
    }
    true
}

/// The completions for what has been typed, among the given symbols.
pub fn complete(symbols: &Vec<Symbol>, prefix: &str) -> (items: Vec<CompletionItem>)
    ensures
        items@ == completions(symbols@, prefix@),
{
    let mut items: Vec<CompletionItem> = Vec::new();
    let mut i: usize = 0;
    while i < symbols.len()
        invariant
            i <= symbols@.len(),
            items@ == completions(symbols@.take(i as int), prefix@),
        decreases symbols@.len() - i,
    {
        let symbol = &symbols[i];
        proof {
            lemma_completions_push(symbols@.take(i as int), *symbol, prefix@);
            assert(symbols@.take(i + 1) == symbols@.take(i as int).push(*symbol));
        }
        if has_prefix(symbol.name.as_str(), prefix) {
            let kind = match symbol.ty {
                Ty::Function => CompletionItemKind::Function,
                Ty::Struct => CompletionItemKind::Struct,
                _ => CompletionItemKind::Variable,
            };
            items.push(CompletionItem { label: symbol.name.clone(), kind });
        }
        i = i + 1;
    }
    proof {
        assert(symbols@.take(i as int) == symbols@);
    }
    items
}

/// One more symbol adds itself to the completions, if it matches.
proof fn lemma_completions_push(symbols: Seq<Symbol>, symbol: Symbol, prefix: Seq<char>)
    ensures
        completions(symbols.push(symbol), prefix) == if starts_with(symbol, prefix) {
            completions(symbols, prefix).push(completion_item(symbol))
        } else {
            completions(symbols, prefix)
        },
{
    let test = |s: Symbol| starts_with(s, prefix);
    assert(symbols.push(symbol).drop_last() == symbols);
    reveal(Seq::filter);
    assert(symbols.push(symbol).filter(test) == if test(symbol) {
        symbols.filter(test).push(symbol)
    } else {
        symbols.filter(test)
    });
}

/// A name is offered exactly where a symbol has it and starts with what has
/// been typed.
pub proof fn law_completions(symbols: Seq<Symbol>, prefix: Seq<char>, item: CompletionItem)
    ensures
        completions(symbols, prefix).contains(item) <==> exists|i: int|
            0 <= i < symbols.len() && starts_with(#[trigger] symbols[i], prefix) && item
                == completion_item(symbols[i]),
    decreases symbols.len(),
{
    if symbols.len() > 0 {
        let shorter = symbols.drop_last();
        let symbol = symbols.last();
        law_completions(shorter, prefix, item);
        assert(symbols == shorter.push(symbol));
        lemma_completions_push(shorter, symbol, prefix);
        let earlier = completions(shorter, prefix);
        let all = completions(symbols, prefix);
        if all.contains(item) {
            let k = choose|k: int| 0 <= k < all.len() && all[k] == item;
            if k < earlier.len() {
                assert(earlier[k] == item);
                let i = choose|i: int|
                    0 <= i < shorter.len() && starts_with(#[trigger] shorter[i], prefix) && item
                        == completion_item(shorter[i]);
                assert(symbols[i] == shorter[i]);
            } else {
                assert(symbols[symbols.len() - 1] == symbol);
            }
        }
        if exists|i: int|
            0 <= i < symbols.len() && starts_with(#[trigger] symbols[i], prefix) && item
                == completion_item(symbols[i]) {
            let i = choose|i: int|
                0 <= i < symbols.len() && starts_with(#[trigger] symbols[i], prefix) && item
                    == completion_item(symbols[i]);
            if i < shorter.len() {
                assert(shorter[i] == symbols[i]);
                let k = choose|k: int| 0 <= k < earlier.len() && earlier[k] == item;
                assert(all[k] == item);
            } else {
                assert(all[all.len() - 1] == item);
            }
        }
    }
}

/// Where nothing has been typed, every symbol is offered.
pub proof fn law_empty_prefix_offers_all(symbols: Seq<Symbol>)
    ensures
        completions(symbols, seq![]) == symbols.map_values(
            |symbol: Symbol| completion_item(symbol),
        ),
    decreases symbols.len(),
{
    let whole = |symbol: Symbol| completion_item(symbol);
    if symbols.len() > 0 {
        let shorter = symbols.drop_last();
        law_empty_prefix_offers_all(shorter);
        assert(symbols == shorter.push(symbols.last()));
        lemma_completions_push(shorter, symbols.last(), seq![]);
        assert(symbols.last().name@.subrange(0, 0) == Seq::<char>::empty());
        assert(symbols.map_values(whole) == shorter.map_values(whole).push(
            completion_item(symbols.last()),
        ));
    } else {
        reveal(Seq::filter);
    }
}

/// Typing on only narrows down what is offered.
pub proof fn law_typing_on_narrows(
    symbols: Seq<Symbol>,
    typed: Seq<char>,
    more: Seq<char>,
    item: CompletionItem,
)
    requires
        completions(symbols, typed + more).contains(item),
    ensures
        completions(symbols, typed).contains(item),
{
    law_completions(symbols, typed + more, item);
    law_completions(symbols, typed, item);
    let i = choose|i: int|
        0 <= i < symbols.len() && starts_with(#[trigger] symbols[i], typed + more) && item
            == completion_item(symbols[i]);
    let name = symbols[i].name@;
    assert(typed == (typed + more).subrange(0, typed.len() as int));
    assert(typed == name.subrange(0, typed.len() as int));
}

/// Whether no two symbols of a list have the same name, as in the table of a
/// module, where every name has one entry.
pub open spec fn distinct_names(symbols: Seq<Symbol>) -> bool {
    forall|i: int, j: int|
        0 <= i < j < symbols.len() ==> (#[trigger] symbols[i]).name@ != (
        #[trigger] symbols[j]).name@
}

/// Whether no two completions of a list have the same label.
pub open spec fn distinct_labels(items: Seq<CompletionItem>) -> bool {
    forall|i: int, j: int|
        0 <= i < j < items.len() ==> (#[trigger] items[i]).label@ != (#[trigger] items[j]).label@
}

/// Where no two symbols share a name, no name is offered twice.
pub proof fn law_no_name_is_offered_twice(symbols: Seq<Symbol>, prefix: Seq<char>)
    requires
        distinct_names(symbols),
    ensures
        distinct_labels(completions(symbols, prefix)),
    decreases symbols.len(),
{
    if symbols.len() == 0 {
        reveal(Seq::filter);
    } else {
        let shorter = symbols.drop_last();
        let symbol = symbols.last();
        assert(distinct_names(shorter)) by {
            assert forall|i: int, j: int| 0 <= i < j < shorter.len() implies (
            #[trigger] shorter[i]).name@ != (#[trigger] shorter[j]).name@ by {
                assert(symbols[i].name@ != symbols[j].name@);
            }
        }
        law_no_name_is_offered_twice(shorter, prefix);
        assert(symbols == shorter.push(symbol));
        lemma_completions_push(shorter, symbol, prefix);
        let earlier = completions(shorter, prefix);
        assert forall|k: int| 0 <= k < earlier.len() implies (#[trigger] earlier[k]).label@
            != symbol.name@ by {
            law_completions(shorter, prefix, earlier[k]);
            assert(earlier.contains(earlier[k]));
            let i = choose|i: int|
                0 <= i < shorter.len() && starts_with(#[trigger] shorter[i], prefix) && earlier[k]
                    == completion_item(shorter[i]);
            assert(symbols[i].name@ != symbols[symbols.len() - 1].name@);
        }
    }
}

/// Whether a name agrees with the whole of what has been typed, character by
/// character.
pub open spec fn agrees(name: Seq<char>, typed: Seq<char>) -> bool {
    &&& typed.len() <= name.len()
    &&& forall|k: int| 0 <= k < typed.len() ==> #[trigger] name[k] == typed[k]
}

/// Every offered label is the name of a symbol, agrees with the whole of what
/// has been typed, and is offered as a function, as a struct or, for any other
/// type, as a variable.
pub proof fn law_offered_label_agrees(symbols: Seq<Symbol>, typed: Seq<char>, k: int)
    requires
        0 <= k < completions(symbols, typed).len(),
    ensures
        ({
            let item = completions(symbols, typed)[k];
            exists|i: int|
                {
                    &&& 0 <= i < symbols.len()
                    &&& item.label == (#[trigger] symbols[i]).name
                    &&& typed.len() <= item.label@.len()
                    &&& forall|c: int| 0 <= c < typed.len() ==> #[trigger] item.label@[c] == typed[c]
                    &&& symbols[i].ty == Ty::Function ==> item.kind == CompletionItemKind::Function
                    &&& symbols[i].ty == Ty::Struct ==> item.kind == CompletionItemKind::Struct
                    &&& symbols[i].ty != Ty::Function && symbols[i].ty != Ty::Struct ==> item.kind
                        == CompletionItemKind::Variable
                }
        }),
{
    let item = completions(symbols, typed)[k];
    law_completions(symbols, typed, item);
    assert(completions(symbols, typed).contains(item));
    let i = choose|i: int|
        0 <= i < symbols.len() && starts_with(#[trigger] symbols[i], typed) && item
            == completion_item(symbols[i]);
    let name = symbols[i].name@;
    assert forall|c: int| 0 <= c < typed.len() implies #[trigger] item.label@[c] == typed[c] by {
        assert(name.subrange(0, typed.len() as int)[c] == name[c]);
    }
}

/// Every symbol whose name agrees with the whole of what has been typed is
/// offered.
pub proof fn law_agreeing_name_is_offered(symbols: Seq<Symbol>, typed: Seq<char>, i: int)
    requires
        0 <= i < symbols.len(),
        typed.len() <= symbols[i].name@.len(),
        forall|c: int| 0 <= c < typed.len() ==> #[trigger] symbols[i].name@[c] == typed[c],
    ensures
        exists|k: int|
            {
                &&& 0 <= k < completions(symbols, typed).len()
                &&& (#[trigger] completions(symbols, typed)[k]).label == symbols[i].name
            },
{
    let item = completion_item(symbols[i]);
    assert(typed == symbols[i].name@.subrange(0, typed.len() as int));
    assert(starts_with(symbols[i], typed));
    law_completions(symbols, typed, item);
    let all = completions(symbols, typed);
    let k = choose|k: int| 0 <= k < all.len() && all[k] == item;
    assert(all[k].label == symbols[i].name);
}

/// Completions follow one another as the symbols do.
pub proof fn law_completions_of_two(a: Seq<Symbol>, b: Seq<Symbol>, typed: Seq<char>)
    ensures
        completions(a + b, typed) == completions(a, typed) + completions(b, typed),
    decreases b.len(),
{
    if b.len() == 0 {
        assert(a + b == a);
        assert(completions(b, typed).len() == 0) by {
            reveal(Seq::filter);
        }
        assert(completions(a, typed) + completions(b, typed) == completions(a, typed));
    } else {
        let shorter = b.drop_last();
        law_completions_of_two(a, shorter, typed);
        assert(a + b == (a + shorter).push(b.last()));
        assert(b == shorter.push(b.last()));
        lemma_completions_push(a + shorter, b.last(), typed);
        lemma_completions_push(shorter, b.last(), typed);
        assert(completions(a + b, typed) == completions(a, typed) + completions(b, typed));
    }
}

/// A symbol is offered once if its name agrees with the whole of what has been
/// typed, and not at all otherwise.
pub proof fn law_completions_of_one(symbol: Symbol, typed: Seq<char>)
    ensures
        agrees(symbol.name@, typed) ==> {
            let offered = completions(seq![symbol], typed);
            &&& offered.len() == 1
            &&& offered[0].label == symbol.name
            &&& offered[0].kind == match symbol.ty {
                Ty::Function => CompletionItemKind::Function,
                Ty::Struct => CompletionItemKind::Struct,
                Ty::Generic => CompletionItemKind::Variable,
                Ty::Other => CompletionItemKind::Variable,
            }
        },
        !agrees(symbol.name@, typed) ==> completions(seq![symbol], typed).len() == 0,
{
    let none = Seq::<Symbol>::empty();
    let name = symbol.name@;
    assert(completions(none, typed).len() == 0) by {
        reveal(Seq::filter);
    }
    assert(none.push(symbol) == seq![symbol]);
    lemma_completions_push(none, symbol, typed);
    if agrees(name, typed) {
        assert(typed == name.subrange(0, typed.len() as int));
    }
    if starts_with(symbol, typed) {
        assert forall|k: int| 0 <= k < typed.len() implies #[trigger] name[k] == typed[k] by {
            assert(name.subrange(0, typed.len() as int)[k] == name[k]);
        }
    }
}

} // verus!
