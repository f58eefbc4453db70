//! Properties of the assembler that hold for every input, stated and proved
//! over the models that the executable functions are verified against.

use crate::arch::{data_word_chars, MAX_LOAD_VALUE};
use crate::diag::{DiagKind, Span};
use crate::numeric::{
    first_bad, lemma_radix_val_nonneg, parse_number_spec, radix_val, ParseValueError,
};
use crate::parser::{
    bump_adr, case_declare, case_transfer, jmp_word_chars, lemma_step_const_decl,
    lemma_step_label_decl, resolve_model, run_model, unused_diags, w_cond, w_define_dir, w_ident,
    w_label_dir, w_value, wtok, WordV,
};
use crate::lexer::TokenV;
use crate::arch::{Cond, Reg};
use crate::symtab::{
    lemma_tab_find, lemma_tab_mark_props, tab_contains, tab_find, tab_get, tab_mark, unused_list,
    ColType,
};
use vstd::prelude::*;

verus! {

/// A literal whose digits are all valid in its radix parses to its value
/// when that value is loadable, and fails with the overflow error — never
/// the invalid-digit error — when it is not.
pub proof fn lemma_valid_digits_parse(s: Seq<char>, radix: int)
    requires
        radix >= 2,
        s.len() >= 1,
        first_bad(s, radix) == s.len(),
    ensures
        radix_val(s, radix) <= MAX_LOAD_VALUE ==> parse_number_spec(s, radix) == Ok::<
            u16,
            ParseValueError,
        >(radix_val(s, radix) as u16),
        radix_val(s, radix) > MAX_LOAD_VALUE ==> parse_number_spec(s, radix) == Err::<
            u16,
            ParseValueError,
        >(ParseValueError::OverflowError),
{
    assert(s.take(first_bad(s, radix)) =~= s);
    lemma_radix_val_nonneg(s, radix);
}

/// Declaring a name that the table already holds — whether the first
/// declaration was a label or a constant, and whichever kind is declared
/// second — never overwrites it: the table is unchanged and exactly one
/// duplicate-declaration error is added, labeling the original
/// declaration's span and then the new one.
pub proof fn lemma_duplicate_declaration(
    id: Seq<char>,
    span: Span,
    val: u16,
    tab: Seq<(Seq<char>, ColType)>,
    diags: Seq<(DiagKind, Seq<Span>)>,
)
    requires
        tab_contains(tab, id),
    ensures
        case_declare(id, span, val, tab, diags) == (
            tab,
            diags.push((DiagKind::DuplicateDeclaration, seq![tab_get(tab, id).span, span])),
        ),
{
}

/// A fresh declaration — either kind — records exactly the given value and
/// span, unused, at the end of the table, and reports nothing.
pub proof fn lemma_fresh_declaration(
    id: Seq<char>,
    span: Span,
    val: u16,
    tab: Seq<(Seq<char>, ColType)>,
    diags: Seq<(DiagKind, Seq<Span>)>,
)
    requires
        !tab_contains(tab, id),
    ensures
        case_declare(id, span, val, tab, diags) == (
            tab.push((id, ColType { val, span, visited: false })),
            diags,
        ),
{
}

/// Declaring a name twice by a label declaration — whatever kind declared
/// it first — changes nothing in the table and adds exactly one
/// duplicate-declaration error referencing the original span and the new
/// one, wherever the window stands in the stream.
pub proof fn lemma_duplicate_label_reported(
    toks: Seq<(Result<TokenV, ()>, Span)>,
    i: int,
    adr: u16,
    tab: Seq<(Seq<char>, ColType)>,
    words: Seq<WordV>,
    diags: Seq<(DiagKind, Seq<Span>)>,
    id: Seq<char>,
    span: Span,
)
    requires
        0 <= i < toks.len(),
        w_ident(wtok(toks, i)) == Some((id, span)),
        w_label_dir(wtok(toks, i + 1)),
        tab_contains(tab, id),
    ensures
        run_model(toks, i, adr, tab, words, diags) == run_model(
            toks,
            i + 2,
            adr,
            tab,
            words,
            diags.push((DiagKind::DuplicateDeclaration, seq![tab_get(tab, id).span, span])),
        ),
{
    lemma_step_label_decl(toks, i, adr, tab, words, diags, id, span);
    lemma_duplicate_declaration(id, span, adr, tab, diags);
}

/// Declaring a name twice by a constant declaration — whatever kind
/// declared it first — changes nothing in the table and adds exactly one
/// duplicate-declaration error referencing the original span and the new
/// one, wherever the window stands in the stream.
pub proof fn lemma_duplicate_constant_reported(
    toks: Seq<(Result<TokenV, ()>, Span)>,
    i: int,
    adr: u16,
    tab: Seq<(Seq<char>, ColType)>,
    words: Seq<WordV>,
    diags: Seq<(DiagKind, Seq<Span>)>,
    id: Seq<char>,
    span: Span,
    val: u16,
)
    requires
        0 <= i < toks.len(),
        w_define_dir(wtok(toks, i)),
        w_ident(wtok(toks, i + 1)) == Some((id, span)),
        w_value(wtok(toks, i + 2)) is Some,
        (w_value(wtok(toks, i + 2))->0).0 == val,
        tab_contains(tab, id),
    ensures
        run_model(toks, i, adr, tab, words, diags) == run_model(
            toks,
            i + 3,
            adr,
            tab,
            words,
            diags.push((DiagKind::DuplicateDeclaration, seq![tab_get(tab, id).span, span])),
        ),
{
    lemma_step_const_decl(toks, i, adr, tab, words, diags, id, span, val);
    lemma_duplicate_declaration(id, span, val, tab, diags);
}

/// A direct transfer into the register whose pointer target is also the
/// source — `A <- *A` or `V <- *V` — always reports exactly one register
/// hazard, labeling the destination and the source.
pub proof fn lemma_transfer_hazard(
    regc: Reg,
    spanc: Span,
    rega: Reg,
    spana: Span,
    adr: u16,
    words: Seq<WordV>,
    diags: Seq<(DiagKind, Seq<Span>)>,
)
    requires
        (regc == Reg::A && rega == Reg::AStar) || (regc == Reg::V && rega == Reg::VStar),
    ensures
        case_transfer(regc, spanc, rega, spana, adr, words, diags).2 == diags.push(
            (DiagKind::RegisterHazard, seq![spanc, spana]),
        ),
{
    let u = case_transfer(regc, spanc, rega, spana, adr, words, diags);
    if regc == Reg::A {
        assert(u.2 =~= diags.push((DiagKind::RegisterHazard, seq![spanc, spana])));
    } else {
        assert(u.2 =~= diags.push((DiagKind::RegisterHazard, seq![spanc, spana])));
    }
}

/// A transfer that touches no hazardous pair reports nothing.
pub proof fn lemma_transfer_clean(
    regc: Reg,
    spanc: Span,
    rega: Reg,
    spana: Span,
    adr: u16,
    words: Seq<WordV>,
    diags: Seq<(DiagKind, Seq<Span>)>,
)
    requires
        !(regc == Reg::A && rega == Reg::AStar),
        !(regc == Reg::V && rega == Reg::VStar),
    ensures
        case_transfer(regc, spanc, rega, spana, adr, words, diags).2 == diags,
{
    assert(case_transfer(regc, spanc, rega, spana, adr, words, diags).2 =~= diags);
}

/// Wherever a `JMP` token stands in the stream, and whatever tokens precede
/// or follow it, the word emitted for it is exactly `0111000000000000`.
pub proof fn lemma_jmp_word(
    toks: Seq<(Result<TokenV, ()>, Span)>,
    i: int,
    adr: u16,
    tab: Seq<(Seq<char>, ColType)>,
    words: Seq<WordV>,
    diags: Seq<(DiagKind, Seq<Span>)>,
)
    requires
        0 <= i < toks.len(),
        w_cond(wtok(toks, i)) is Some,
        (w_cond(wtok(toks, i))->0).0 == Cond::Jump,
    ensures
        run_model(toks, i, adr, tab, words, diags) == run_model(
            toks,
            i + 1,
            bump_adr(adr),
            tab,
            words.push(WordV::Encoded(jmp_word_chars())),
            diags,
        ),
        jmp_word_chars() == seq![
            '0',
            '1',
            '1',
            '1',
            '0',
            '0',
            '0',
            '0',
            '0',
            '0',
            '0',
            '0',
            '0',
            '0',
            '0',
            '0',
        ],
{
}

/// The warnings of the resolution's aftermath, entry by entry: a symbol
/// never marked used yields exactly one unused-declaration warning labeling
/// its declaration span; a used symbol yields none; warnings come in
/// declaration order.
pub proof fn lemma_unused_warnings(tab: Seq<(Seq<char>, ColType)>)
    ensures
        tab.len() == 0 ==> unused_diags(tab) == Seq::<(DiagKind, Seq<Span>)>::empty(),
        tab.len() > 0 && tab.last().1.visited ==> unused_diags(tab) == unused_diags(
            tab.drop_last(),
        ),
        tab.len() > 0 && !tab.last().1.visited ==> unused_diags(tab) == unused_diags(
            tab.drop_last(),
        ).push((DiagKind::UnusedDeclaration, seq![tab.last().1.span])),
{
    if tab.len() == 0 {
        assert(unused_diags(tab) =~= Seq::<(DiagKind, Seq<Span>)>::empty());
    } else if tab.last().1.visited {
        assert(unused_list(tab) =~= unused_list(tab.drop_last()));
        assert(unused_diags(tab) =~= unused_diags(tab.drop_last()));
    } else {
        assert(unused_list(tab) =~= unused_list(tab.drop_last()).push(
            (tab.last().0, tab.last().1.span),
        ));
        assert(unused_diags(tab) =~= unused_diags(tab.drop_last()).push(
            (DiagKind::UnusedDeclaration, seq![tab.last().1.span]),
        ));
    }
}

/// What one word of the list resolves to against a table: marking symbols
/// used never changes this.
pub open spec fn resolved_word(w: WordV, tab: Seq<(Seq<char>, ColType)>) -> Seq<char> {
    match w {
        WordV::Encoded(s) => s,
        WordV::Placeholder(name, span) => if tab_contains(tab, name) {
            data_word_chars(tab_get(tab, name).val)
        } else {
            seq!['E']
        },
    }
}

/// Two tables whose entries carry the same names and values resolve every
/// name alike.
proof fn lemma_tab_same_names(
    t1: Seq<(Seq<char>, ColType)>,
    t2: Seq<(Seq<char>, ColType)>,
    name: Seq<char>,
)
    requires
        t1.len() == t2.len(),
        forall|k: int| 0 <= k < t1.len() ==> (#[trigger] t1[k]).0 == t2[k].0,
        forall|k: int| 0 <= k < t1.len() ==> (#[trigger] t1[k]).1.val == t2[k].1.val,
    ensures
        tab_find(t1, name) == tab_find(t2, name),
        tab_contains(t1, name) == tab_contains(t2, name),
        tab_contains(t1, name) ==> tab_get(t1, name).val == tab_get(t2, name).val,
    decreases t1.len(),
{
    if t1.len() > 0 {
        assert(t1[0].0 == t2[0].0);
        assert(forall|k: int|
            0 <= k < t1.drop_first().len() ==> (#[trigger] t1.drop_first()[k]).0 == t1[k + 1].0
                && t2.drop_first()[k].0 == t2[k + 1].0);
        assert(forall|k: int|
            0 <= k < t1.drop_first().len() ==> (#[trigger] t1.drop_first()[k]).1.val == t1[k
                + 1].1.val && t2.drop_first()[k].1.val == t2[k + 1].1.val);
        lemma_tab_same_names(t1.drop_first(), t2.drop_first(), name);
        lemma_tab_find(t1, name);
        lemma_tab_find(t2, name);
    }
}

/// The resolution pass emits exactly one word per entry, in order, and a
/// deferred reference — forward or backward — resolves to the immediate
/// word of the value its name was declared with; an undeclared name
/// resolves to the invalid marker. The usage marks the pass sets along the
/// way change no outcome.
pub proof fn lemma_resolution(
    words: Seq<WordV>,
    k: int,
    tab: Seq<(Seq<char>, ColType)>,
    outs: Seq<Seq<char>>,
    diags: Seq<(DiagKind, Seq<Span>)>,
)
    requires
        0 <= k <= words.len(),
    ensures
        ({
            let r = resolve_model(words, k, tab, outs, diags);
            &&& r.0.len() == outs.len() + (words.len() - k)
            &&& forall|j: int|
                0 <= j < outs.len() ==> (#[trigger] r.0[j]) == outs[j]
            &&& forall|j: int|
                k <= j < words.len() ==> (#[trigger] r.0[outs.len() + (j - k)]) == resolved_word(
                    words[j],
                    tab,
                )
        }),
    decreases words.len() - k,
{
    let r = resolve_model(words, k, tab, outs, diags);
    if k < words.len() {
        match words[k] {
            WordV::Encoded(w) => {
                let outs2 = outs.push(w);
                lemma_resolution(words, k + 1, tab, outs2, diags);
                assert forall|j: int| 0 <= j < outs.len() implies (#[trigger] r.0[j]) == outs[j] by {
                    assert(r.0[j] == outs2[j]);
                }
                assert forall|j: int| k <= j < words.len() implies (#[trigger] r.0[outs.len() + (j
                    - k)]) == resolved_word(words[j], tab) by {
                    if j == k {
                        assert(r.0[outs2.len() - 1] == outs2[outs2.len() - 1]);
                    } else {
                        assert(r.0[outs2.len() + (j - (k + 1))] == resolved_word(words[j], tab));
                        assert(outs2.len() + (j - (k + 1)) == outs.len() + (j - k));
                    }
                }
            },
            WordV::Placeholder(name, span) => {
                if tab_contains(tab, name) {
                    lemma_tab_mark_props(tab, name);
                    let tab2 = tab_mark(tab, name);
                    let outs2 = outs.push(data_word_chars(tab_get(tab, name).val));
                    lemma_resolution(words, k + 1, tab2, outs2, diags);
                    assert forall|j: int| 0 <= j < outs.len() implies (#[trigger] r.0[j])
                        == outs[j] by {
                        assert(r.0[j] == outs2[j]);
                    }
                    assert forall|j: int| k <= j < words.len() implies (#[trigger] r.0[outs.len()
                        + (j - k)]) == resolved_word(words[j], tab) by {
                        if j == k {
                            assert(r.0[outs2.len() - 1] == outs2[outs2.len() - 1]);
                        } else {
                            assert(r.0[outs2.len() + (j - (k + 1))] == resolved_word(
                                words[j],
                                tab2,
                            ));
                            assert(outs2.len() + (j - (k + 1)) == outs.len() + (j - k));
                            match words[j] {
                                WordV::Placeholder(nm, _) => {
                                    lemma_tab_same_names(tab2, tab, nm);
                                },
                                _ => {},
                            }
                        }
                    }
                } else {
                    let outs2 = outs.push(seq!['E']);
                    lemma_resolution(
                        words,
                        k + 1,
                        tab,
                        outs2,
                        diags.push((DiagKind::UnresolvedIdentifier, seq![span])),
                    );
                    assert forall|j: int| 0 <= j < outs.len() implies (#[trigger] r.0[j])
                        == outs[j] by {
                        assert(r.0[j] == outs2[j]);
                    }
                    assert forall|j: int| k <= j < words.len() implies (#[trigger] r.0[outs.len()
                        + (j - k)]) == resolved_word(words[j], tab) by {
                        if j == k {
                            assert(r.0[outs2.len() - 1] == outs2[outs2.len() - 1]);
                        } else {
                            assert(r.0[outs2.len() + (j - (k + 1))] == resolved_word(
                                words[j],
                                tab,
                            ));
                            assert(outs2.len() + (j - (k + 1)) == outs.len() + (j - k));
                        }
                    }
                }
            },
        }
    }
}

/// Appending an entry under a different name changes no lookup.
proof fn lemma_tab_find_push(
    t: Seq<(Seq<char>, ColType)>,
    e: (Seq<char>, ColType),
    name: Seq<char>,
)
    requires
        name != e.0,
    ensures
        tab_contains(t.push(e), name) == tab_contains(t, name),
        tab_contains(t, name) ==> tab_get(t.push(e), name) == tab_get(t, name),
    decreases t.len(),
{
    if t.len() == 0 {
        assert(t.push(e)[0] == e);
        assert(t.push(e).drop_first() =~= Seq::<(Seq<char>, ColType)>::empty());
        assert(tab_find(Seq::<(Seq<char>, ColType)>::empty(), name) == 0);
        assert(tab_find(t.push(e), name) == 1);
    } else if t[0].0 == name {
        assert(t.push(e)[0] == t[0]);
    } else {
        assert(t.push(e)[0] == t[0]);
        assert(t.push(e).drop_first() =~= t.drop_first().push(e));
        lemma_tab_find_push(t.drop_first(), e, name);
        lemma_tab_find(t, name);
        lemma_tab_find(t.push(e), name);
        lemma_tab_find(t.drop_first(), name);
        lemma_tab_find(t.drop_first().push(e), name);
    }
}

/// A declared symbol that no placeholder references has no effect on what
/// the words resolve to: with or without its entry, every word of the list
/// yields the same output.
pub proof fn lemma_unreferenced_declaration_no_effect(
    words: Seq<WordV>,
    tab: Seq<(Seq<char>, ColType)>,
    e: (Seq<char>, ColType),
)
    requires
        forall|j: int|
            0 <= j < words.len() ==> ((#[trigger] words[j]) matches WordV::Placeholder(nm, sp)
                ==> nm != e.0),
    ensures
        forall|j: int|
            0 <= j < words.len() ==> #[trigger] resolved_word(words[j], tab.push(e))
                == resolved_word(words[j], tab),
{
    assert forall|j: int| 0 <= j < words.len() implies #[trigger] resolved_word(
        words[j],
        tab.push(e),
    ) == resolved_word(words[j], tab) by {
        match words[j] {
            WordV::Placeholder(nm, sp) => {
                lemma_tab_find_push(tab, e, nm);
            },
            _ => {},
        }
    }
}

/// The address a word list corresponds to: one word-length per emitted
/// word, saturating at the maximum loadable value.
pub open spec fn word_address(n: int) -> u16 {
    if 16 * n <= MAX_LOAD_VALUE {
        (16 * n) as u16
    } else {
        MAX_LOAD_VALUE
    }
}

/// The address counter tracks the emitted words exactly: starting from the
/// address of the words emitted so far, one more emitted word advances it
/// to the address of the grown list. A label declared at any point between
/// therefore takes sixteen times the count of previously emitted words,
/// while that address is representable.
pub proof fn lemma_address_tracks_words(words: Seq<WordV>, w: WordV)
    ensures
        bump_adr(word_address(words.len() as int)) == word_address(words.push(w).len() as int),
{
}

} // verus!
