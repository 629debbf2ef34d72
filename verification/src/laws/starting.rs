//! What the command line and the environment lead to.

use crate::app::ZoomMode;
use crate::startup::{
    lower, mentions, reads_at, spec_initial_page, spec_initial_zoom,
    spec_terminal_support, StartError,
};
use vstd::prelude::*;

verus! {

/// Pages are counted from one on the command line and from zero inside; there is
/// no page zero.
pub proof fn law_first_page_to_show(page: usize)
    ensures
        page >= 1 ==> (spec_initial_page(page) matches Ok(index) && index + 1 == page),
        page == 0 ==> spec_initial_page(page) == Err::<usize, StartError>(StartError::PageZero),
{
}

/// Without a percentage the page is fitted, and with one it has that; nothing is
/// shown at zero.
pub proof fn law_first_zoom(percent: u16)
    ensures
        spec_initial_zoom(None) == Ok::<ZoomMode, StartError>(ZoomMode::Fit),
        percent >= 1 ==> spec_initial_zoom(Some(percent)) == Ok::<ZoomMode, StartError>(
            ZoomMode::Fixed(percent),
        ),
        spec_initial_zoom(Some(0)) == Err::<ZoomMode, StartError>(StartError::ZoomZero),
{
}

/// The text has the word in it, from `at` on, in letters of either case.
pub open spec fn has_word_at(text: Seq<char>, word: Seq<char>, at: int) -> bool {
    &&& 0 <= at
    &&& at + word.len() <= text.len()
    &&& forall|i: int|
        0 <= i < word.len() ==> (#[trigger] text[at + i] == word[i] || (word[i] >= 'a' && word[i]
            <= 'z' && text[at + i] as int + 32 == word[i] as int))
}

pub open spec fn has_word(text: Seq<char>, word: Seq<char>) -> bool {
    exists|at: int| has_word_at(text, word, at)
}

pub open spec fn is_lower(word: Seq<char>) -> bool {
    forall|i: int| 0 <= i < word.len() ==> 'a' <= #[trigger] word[i] && word[i] <= 'z'
}

proof fn lemma_words(text: Seq<char>, word: Seq<char>)
    requires
        is_lower(word),
    ensures
        mentions(text, word) <==> has_word(text, word),
{
    assert forall|at: int| reads_at(text, word, at) implies has_word_at(text, word, at) by {
        assert forall|i: int| 0 <= i < word.len() implies (#[trigger] text[at + i] == word[i] || (
        word[i] >= 'a' && word[i] <= 'z' && text[at + i] as int + 32 == word[i] as int)) by {
            assert(lower(text[at + i]) == word[i]);
        }
    }
    assert forall|at: int| has_word_at(text, word, at) implies reads_at(text, word, at) by {
        assert forall|i: int| 0 <= i < word.len() implies lower(text[at + i])
            == #[trigger] word[i] by {
            assert(text[at + i] == word[i] || (word[i] >= 'a' && word[i] <= 'z' && text[at + i]
                as int + 32 == word[i] as int));
            assert('a' <= word[i] && word[i] <= 'z');
        }
    }
    if mentions(text, word) {
        let at = choose|at: int| reads_at(text, word, at);
        assert(has_word_at(text, word, at));
    }
    if has_word(text, word) {
        let at = choose|at: int| has_word_at(text, word, at);
        assert(reads_at(text, word, at));
    }
}

/// The viewer starts where it is forced to, in Kitty and in zellij, and where the
/// names of the terminal have the words in them, in letters of either case. It
/// starts nowhere else.
pub proof fn law_terminals_that_will_do(
    force: bool,
    term_program: Seq<char>,
    term: Seq<char>,
    kitty_window_id: bool,
    zellij: bool,
)
    ensures
        ({
            let ghostty = seq!['g', 'h', 'o', 's', 't', 't', 'y'];
            let wezterm = seq!['w', 'e', 'z', 't', 'e', 'r', 'm'];
            let kitty = seq!['k', 'i', 't', 't', 'y'];
            let known = has_word(term_program, ghostty) || has_word(term_program, wezterm)
                || has_word(term, ghostty) || has_word(term, kitty);
            let start = spec_terminal_support(force, term_program, term, kitty_window_id, zellij);
            &&& force || kitty_window_id || zellij || known ==> start == Ok::<(), StartError>(())
            &&& !(force || kitty_window_id || zellij || known) ==> start == Err::<(), StartError>(
                StartError::UnsupportedTerminal,
            )
        }),
{
    let ghostty = seq!['g', 'h', 'o', 's', 't', 't', 'y'];
    let wezterm = seq!['w', 'e', 'z', 't', 'e', 'r', 'm'];
    let kitty = seq!['k', 'i', 't', 't', 'y'];
    reveal_strlit("ghostty");
    reveal_strlit("wezterm");
    reveal_strlit("kitty");
    assert("ghostty"@ =~= ghostty);
    assert("wezterm"@ =~= wezterm);
    assert("kitty"@ =~= kitty);
    lemma_words(term_program, ghostty);
    lemma_words(term_program, wezterm);
    lemma_words(term, ghostty);
    lemma_words(term, kitty);
}

} // verus!
