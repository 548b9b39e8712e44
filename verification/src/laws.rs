//! What holds of every scan: theorems about the token grammar.

use vstd::prelude::*;
use crate::charclass::{
    CharClass, is_punctuation, spec_is_digit, spec_is_letter, spec_is_whitespace,
};
use crate::grammar::{
    lemma_offset_after_bounds, lemma_run_end_is_maximal, lemma_run_end_is_unique,
    lemma_scan_bounds, nth_token, offset_after, run_end, scan, symbol_kind, token_at,
    token_starting_at,
};
use crate::token::{
    TokenType, TokenView, end_of_input, is_name_kind, keyword_kind, lemma_keywords_match_exactly,
};

verus! {

/// A scanner that has found the end of the input finds it again on every
/// later call.
proof fn lemma_end_of_input_repeats(text: Seq<char>, from: nat, n: nat)
    requires
        from <= text.len(),
        scan(text, from).kind == TokenType::Eof,
    ensures
        nth_token(text, from, n) == end_of_input(),
    decreases n,
{
    lemma_scan_bounds(text, from);
    let end = scan(text, from).end;
    assert(text.subrange(end as int, end as int) =~= Seq::<char>::empty());
    if n > 0 {
        lemma_end_of_input_repeats(text, end, (n - 1) as nat);
    }
}

/// Termination is idempotent: once a call has returned `Eof`, every later
/// call on the same scanner returns the empty `Eof` token.
pub proof fn lemma_end_of_input_is_final(text: Seq<char>, from: nat, first: nat, later: nat)
    requires
        from <= text.len(),
        first <= later,
        nth_token(text, from, first).kind == TokenType::Eof,
    ensures
        nth_token(text, from, later) == end_of_input(),
    decreases first,
{
    lemma_scan_bounds(text, from);
    if first == 0 {
        lemma_end_of_input_repeats(text, from, later);
    } else {
        lemma_end_of_input_is_final(
            text,
            scan(text, from).end,
            (first - 1) as nat,
            (later - 1) as nat,
        );
    }
}

/// Scanning ends: a scanner at offset `from` has returned `Eof` after at
/// most as many calls as characters are left, and one more.
pub proof fn lemma_scanning_terminates(text: Seq<char>, from: nat, n: nat)
    requires
        from <= text.len(),
        n >= text.len() - from,
    ensures
        nth_token(text, from, n) == end_of_input(),
    decreases n,
{
    lemma_scan_bounds(text, from);
    if scan(text, from).kind == TokenType::Eof {
        lemma_end_of_input_repeats(text, from, n);
    } else {
        lemma_scanning_terminates(text, scan(text, from).end, (n - 1) as nat);
    }
}

/// No lexeme holds whitespace, and only that of `Eof` is empty.
pub proof fn lemma_lexemes_are_solid(text: Seq<char>, from: nat)
    requires
        from <= text.len(),
    ensures
        token_at(text, from).lexeme.len() == 0 <==> token_at(text, from).kind == TokenType::Eof,
        forall|i: int|
            0 <= i < token_at(text, from).lexeme.len() ==> !spec_is_whitespace(
                #[trigger] token_at(text, from).lexeme[i],
            ),
{
    let span = scan(text, from);
    lemma_run_end_is_maximal(text, CharClass::Whitespace, from);
    if span.start < text.len() {
        lemma_run_end_is_maximal(text, CharClass::Word, span.start);
        lemma_run_end_is_maximal(text, CharClass::Digit, span.start);
    }
}

/// Names are read greedily. A token is a name exactly where it starts with a
/// letter or an underscore; it then runs on over letters, digits and
/// underscores up to the first other character or the end of the text, and
/// whether it is a keyword is decided by the whole of it.
pub proof fn lemma_names_are_maximal(text: Seq<char>, from: nat)
    requires
        from <= text.len(),
        scan(text, from).kind != TokenType::Eof,
    ensures
        is_name_kind(scan(text, from).kind) <==> spec_is_letter(
            text[scan(text, from).start as int],
        ),
        is_name_kind(scan(text, from).kind) ==> {
            &&& scan(text, from).kind == keyword_kind(token_at(text, from).lexeme)
            &&& forall|i: int|
                0 <= i < token_at(text, from).lexeme.len() ==> CharClass::Word.contains(
                    #[trigger] token_at(text, from).lexeme[i],
                )
            &&& scan(text, from).end < text.len() ==> !CharClass::Word.contains(
                text[scan(text, from).end as int],
            )
        },
{
    let span = scan(text, from);
    lemma_run_end_is_maximal(text, CharClass::Word, span.start);
}

/// Integer literals are read greedily. A token is one exactly where it
/// starts with a digit; it then runs on over digits up to the first other
/// character or the end of the text.
pub proof fn lemma_numbers_are_maximal(text: Seq<char>, from: nat)
    requires
        from <= text.len(),
        scan(text, from).kind != TokenType::Eof,
    ensures
        scan(text, from).kind == TokenType::Int <==> spec_is_digit(
            text[scan(text, from).start as int],
        ),
        scan(text, from).kind == TokenType::Int ==> {
            &&& forall|i: int|
                0 <= i < token_at(text, from).lexeme.len() ==> spec_is_digit(
                    #[trigger] token_at(text, from).lexeme[i],
                )
            &&& scan(text, from).end < text.len() ==> !spec_is_digit(
                text[scan(text, from).end as int],
            )
        },
{
    let span = scan(text, from);
    lemma_run_end_is_maximal(text, CharClass::Digit, span.start);
    lemma_keywords_match_exactly(
        text.subrange(span.start as int, run_end(text, CharClass::Word, span.start) as int),
    );
}

/// Whether every character of `text` is a punctuation character.
pub open spec fn all_punctuation(text: Seq<char>) -> bool {
    forall|i: int| 0 <= i < text.len() ==> is_punctuation(#[trigger] text[i])
}

/// The token that a character forms on its own.
pub open spec fn symbol_token(c: char) -> TokenView {
    TokenView { kind: symbol_kind(c), lexeme: seq![c] }
}

/// In a text of punctuation, a scanner that stands `n` characters before the
/// end returns them one by one.
proof fn lemma_punctuation_from(text: Seq<char>, from: nat, n: nat)
    requires
        all_punctuation(text),
        from + n <= text.len(),
    ensures
        from + n < text.len() ==> nth_token(text, from, n) == symbol_token(text[from as int + n]),
        from + n == text.len() ==> nth_token(text, from, n) == end_of_input(),
    decreases n,
{
    if from < text.len() {
        assert(text.subrange(from as int, from as int + 1) =~= seq![text[from as int]]);
    } else {
        assert(text.subrange(from as int, from as int) =~= Seq::<char>::empty());
    }
    if n > 0 {
        lemma_punctuation_from(text, from + 1, (n - 1) as nat);
    }
}

/// A text made of punctuation alone is scanned one token per character, in
/// the order of the text: call `n` returns the token of character `n`, with
/// that character as its lexeme, and the call after the last character
/// returns `Eof`.
pub proof fn lemma_punctuation_scans_one_token_per_char(text: Seq<char>, n: nat)
    requires
        all_punctuation(text),
        n <= text.len(),
    ensures
        n < text.len() ==> nth_token(text, 0, n) == symbol_token(text[n as int]),
        n < text.len() ==> symbol_kind(text[n as int]) != TokenType::Illegal,
        n == text.len() ==> nth_token(text, 0, n) == end_of_input(),
{
    lemma_punctuation_from(text, 0, n);
}

/// One character of lookahead decides between `=` and `==`, and between `!`
/// and `!=`: followed by `=`, either forms a two-character token; followed
/// by anything else or by nothing, it is a token of one character.
pub proof fn lemma_comparison_lookahead(text: Seq<char>, at: nat)
    requires
        at < text.len(),
        text[at as int] == '=' || text[at as int] == '!',
    ensures
        scan(text, at).start == at,
        at + 1 < text.len() && text[at as int + 1] == '=' ==> {
            &&& scan(text, at).end == at + 2
            &&& text[at as int] == '=' ==> token_at(text, at) == TokenView {
                kind: TokenType::Eq,
                lexeme: seq!['=', '='],
            }
            &&& text[at as int] == '!' ==> token_at(text, at) == TokenView {
                kind: TokenType::NotEq,
                lexeme: seq!['!', '='],
            }
        },
        !(at + 1 < text.len() && text[at as int + 1] == '=') ==> {
            &&& scan(text, at).end == at + 1
            &&& text[at as int] == '=' ==> token_at(text, at) == TokenView {
                kind: TokenType::Assign,
                lexeme: seq!['='],
            }
            &&& text[at as int] == '!' ==> token_at(text, at) == TokenView {
                kind: TokenType::Bang,
                lexeme: seq!['!'],
            }
        },
{
    let c = text[at as int];
    if at + 1 < text.len() && text[at as int + 1] == '=' {
        assert(text.subrange(at as int, at as int + 2) =~= seq![c, '=']);
    } else {
        assert(text.subrange(at as int, at as int + 1) =~= seq![c]);
    }
}

/// Whether `a` read from offset `i` on is `b` read from offset `j` on.
pub open spec fn same_rest(a: Seq<char>, i: nat, b: Seq<char>, j: nat) -> bool {
    &&& i <= a.len()
    &&& j <= b.len()
    &&& a.skip(i as int) == b.skip(j as int)
}

/// Texts with the same rest have, `k` characters on, the same rest again.
proof fn lemma_same_rest_further(a: Seq<char>, i: nat, b: Seq<char>, j: nat, k: nat)
    requires
        same_rest(a, i, b, j),
        i + k <= a.len(),
    ensures
        same_rest(a, i + k, b, j + k),
{
    assert(a.skip(i as int + k) =~= a.skip(i as int).skip(k as int));
    assert(b.skip(j as int + k) =~= b.skip(j as int).skip(k as int));
}

/// Texts with the same rest hold the same character `k` places on.
proof fn lemma_same_rest_char(a: Seq<char>, i: nat, b: Seq<char>, j: nat, k: nat)
    requires
        same_rest(a, i, b, j),
        i + k < a.len(),
    ensures
        j + k < b.len(),
        a[i as int + k] == b[j as int + k],
{
    assert(a.skip(i as int).len() == b.skip(j as int).len());
    assert(b[j as int + k] == b.skip(j as int)[k as int]);
}

/// A run is as long in one text as in another with the same rest.
proof fn lemma_run_depends_on_rest(
    a: Seq<char>,
    i: nat,
    b: Seq<char>,
    j: nat,
    class: CharClass,
)
    requires
        same_rest(a, i, b, j),
    ensures
        run_end(a, class, i) - i == run_end(b, class, j) - j,
    decreases a.len() - i,
{
    assert(a.skip(i as int).len() == b.skip(j as int).len());
    if i < a.len() {
        lemma_same_rest_char(a, i, b, j, 0);
        if class.contains(a[i as int]) {
            lemma_same_rest_further(a, i, b, j, 1);
            lemma_run_depends_on_rest(a, i + 1, b, j + 1, class);
        }
    }
}

/// The token that starts at an offset is the same in every text with the
/// same rest.
proof fn lemma_token_depends_on_rest(a: Seq<char>, i: nat, b: Seq<char>, j: nat)
    requires
        same_rest(a, i, b, j),
    ensures
        token_starting_at(a, i).kind == token_starting_at(b, j).kind,
        token_starting_at(a, i).end - i == token_starting_at(b, j).end - j,
        a.subrange(i as int, token_starting_at(a, i).end as int) == b.subrange(
            j as int,
            token_starting_at(b, j).end as int,
        ),
{
    assert(a.skip(i as int).len() == b.skip(j as int).len());
    let end = token_starting_at(a, i).end;
    let len = end - i;
    if i < a.len() {
        lemma_same_rest_char(a, i, b, j, 0);
        lemma_run_depends_on_rest(a, i, b, j, CharClass::Word);
        lemma_run_depends_on_rest(a, i, b, j, CharClass::Digit);
        lemma_run_end_is_maximal(a, CharClass::Word, i);
        lemma_run_end_is_maximal(a, CharClass::Digit, i);
        if i + 1 < a.len() {
            lemma_same_rest_char(a, i, b, j, 1);
        }
    }
    assert(a.subrange(i as int, i + len) =~= a.skip(i as int).subrange(0, len));
    assert(b.subrange(j as int, j + len) =~= b.skip(j as int).subrange(0, len));
}

/// A scan depends on nothing but the text from the cursor on: two scanners
/// with the same characters before them find the same token and move on by
/// the same number of characters.
pub proof fn lemma_scan_depends_on_rest(a: Seq<char>, i: nat, b: Seq<char>, j: nat)
    requires
        same_rest(a, i, b, j),
    ensures
        token_at(a, i) == token_at(b, j),
        scan(a, i).end - i == scan(b, j).end - j,
        same_rest(a, scan(a, i).end, b, scan(b, j).end),
{
    let skipped = run_end(a, CharClass::Whitespace, i) - i;
    lemma_run_end_is_maximal(a, CharClass::Whitespace, i);
    lemma_run_depends_on_rest(a, i, b, j, CharClass::Whitespace);
    lemma_same_rest_further(a, i, b, j, skipped as nat);
    lemma_token_depends_on_rest(a, i + skipped as nat, b, j + skipped as nat);
    lemma_scan_bounds(a, i);
    lemma_same_rest_further(a, i, b, j, (scan(a, i).end - i) as nat);
}

/// The same holds of every later token: what a scanner returns from some
/// offset on is decided by the text from that offset on.
pub proof fn lemma_tokens_depend_on_rest(a: Seq<char>, i: nat, b: Seq<char>, j: nat, n: nat)
    requires
        same_rest(a, i, b, j),
    ensures
        nth_token(a, i, n) == nth_token(b, j, n),
    decreases n,
{
    lemma_scan_depends_on_rest(a, i, b, j);
    if n > 0 {
        lemma_tokens_depend_on_rest(a, scan(a, i).end, b, scan(b, j).end, (n - 1) as nat);
    }
}

/// Whether `run` holds nothing but whitespace. It may be empty.
pub open spec fn is_blank(run: Seq<char>) -> bool {
    forall|i: int| 0 <= i < run.len() ==> spec_is_whitespace(#[trigger] run[i])
}

/// Whether `run` is a run of whitespace, of one character at least.
pub open spec fn is_whitespace_run(run: Seq<char>) -> bool {
    run.len() > 0 && is_blank(run)
}

/// A run of letters or digits that starts before a whitespace run ends
/// before it, where it ends in the text before the whitespace taken alone.
proof fn lemma_run_stops_at_gap(
    head: Seq<char>,
    gap: Seq<char>,
    tail: Seq<char>,
    class: CharClass,
    from: nat,
)
    requires
        is_whitespace_run(gap),
        from <= head.len(),
        class != CharClass::Whitespace,
    ensures
        run_end(head + gap + tail, class, from) == run_end(head, class, from),
{
    let text = head + gap + tail;
    let end = run_end(head, class, from);
    lemma_run_end_is_maximal(head, class, from);
    lemma_run_end_is_unique(text, class, from, end);
}

/// What a scanner finds before a whitespace run. While the text before the
/// run still holds a token, the scan goes as in that text taken alone;
/// after that, it returns the first token of the text behind the run.
proof fn lemma_scan_before_gap(head: Seq<char>, gap: Seq<char>, tail: Seq<char>, from: nat)
    requires
        is_whitespace_run(gap),
        from <= head.len(),
    ensures
        scan(head, from).kind != TokenType::Eof ==> {
            &&& scan(head + gap + tail, from).end == scan(head, from).end
            &&& token_at(head + gap + tail, from) == token_at(head, from)
        },
        scan(head, from).kind == TokenType::Eof ==> {
            &&& scan(head + gap + tail, from).end == head.len() + gap.len() + scan(tail, 0).end
            &&& token_at(head + gap + tail, from) == token_at(tail, 0)
        },
{
    let text = head + gap + tail;
    let start = run_end(head, CharClass::Whitespace, from);
    lemma_scan_bounds(head, from);
    lemma_run_end_is_maximal(head, CharClass::Whitespace, from);
    if start < head.len() {
        lemma_run_end_is_unique(text, CharClass::Whitespace, from, start);
        lemma_run_stops_at_gap(head, gap, tail, CharClass::Word, start);
        lemma_run_stops_at_gap(head, gap, tail, CharClass::Digit, start);
        let end = scan(head, from).end;
        assert(text.subrange(start as int, end as int) =~= head.subrange(
            start as int,
            end as int,
        ));
    } else {
        let mid = head.len() + gap.len();
        let skipped = run_end(tail, CharClass::Whitespace, 0);
        lemma_run_end_is_maximal(tail, CharClass::Whitespace, 0);
        lemma_run_end_is_unique(text, CharClass::Whitespace, from, mid + skipped);
        assert(text.skip(mid as int) =~= tail);
        assert(tail.skip(0) =~= tail);
        lemma_same_rest_further(text, mid, tail, 0, skipped);
        lemma_token_depends_on_rest(text, mid + skipped, tail, skipped);
    }
}

/// Where two scanners stand in two texts that differ in one whitespace run:
/// at the same offset before the run, or equally far behind it.
spec fn abreast(
    head: Seq<char>,
    gap1: Seq<char>,
    gap2: Seq<char>,
    tail: Seq<char>,
    at1: nat,
    at2: nat,
) -> bool {
    ||| at1 == at2 && at1 <= head.len()
    ||| {
        &&& head.len() + gap1.len() <= at1 <= head.len() + gap1.len() + tail.len()
        &&& at1 - gap1.len() == at2 - gap2.len()
    }
}

/// Scanners that stand abreast return the same tokens from there on.
proof fn lemma_abreast_scanners_agree(
    head: Seq<char>,
    gap1: Seq<char>,
    gap2: Seq<char>,
    tail: Seq<char>,
    at1: nat,
    at2: nat,
    n: nat,
)
    requires
        is_whitespace_run(gap1),
        is_whitespace_run(gap2),
        abreast(head, gap1, gap2, tail, at1, at2),
    ensures
        nth_token(head + gap1 + tail, at1, n) == nth_token(head + gap2 + tail, at2, n),
    decreases n,
{
    let text1 = head + gap1 + tail;
    let text2 = head + gap2 + tail;
    if at1 == at2 && at1 <= head.len() {
        lemma_scan_before_gap(head, gap1, tail, at1);
        lemma_scan_before_gap(head, gap2, tail, at1);
        lemma_scan_bounds(head, at1);
        lemma_scan_bounds(tail, 0);
        if n > 0 {
            lemma_abreast_scanners_agree(
                head,
                gap1,
                gap2,
                tail,
                scan(text1, at1).end,
                scan(text2, at2).end,
                (n - 1) as nat,
            );
        }
    } else {
        let behind = (at1 - head.len() - gap1.len()) as nat;
        assert(text1.skip(at1 as int) =~= tail.skip(behind as int));
        assert(text2.skip(at2 as int) =~= tail.skip(behind as int));
        lemma_tokens_depend_on_rest(text1, at1, tail, behind, n);
        lemma_tokens_depend_on_rest(text2, at2, tail, behind, n);
    }
}

/// Whitespace only separates: two texts that differ in nothing but one run
/// of whitespace, which neither lacks, are scanned into the same tokens.
pub proof fn lemma_whitespace_runs_are_interchangeable(
    head: Seq<char>,
    gap1: Seq<char>,
    gap2: Seq<char>,
    tail: Seq<char>,
    n: nat,
)
    requires
        is_whitespace_run(gap1),
        is_whitespace_run(gap2),
    ensures
        nth_token(head + gap1 + tail, 0, n) == nth_token(head + gap2 + tail, 0, n),
{
    lemma_abreast_scanners_agree(head, gap1, gap2, tail, 0, 0, n);
}

/// A token that ends before the seam of two texts is found in the first
/// text taken alone.
proof fn lemma_scan_before_seam(head: Seq<char>, tail: Seq<char>, from: nat)
    requires
        from <= head.len(),
        scan(head + tail, from).kind != TokenType::Eof,
        scan(head + tail, from).end <= head.len(),
    ensures
        scan(head, from) == scan(head + tail, from),
        token_at(head, from) == token_at(head + tail, from),
{
    let text = head + tail;
    let span = scan(text, from);
    lemma_scan_bounds(text, from);
    lemma_run_end_is_maximal(text, CharClass::Whitespace, from);
    assert forall|i: int| 0 <= i < head.len() implies #[trigger] head[i] == text[i] by {}
    lemma_run_end_is_unique(head, CharClass::Whitespace, from, span.start);
    if spec_is_letter(text[span.start as int]) {
        lemma_run_end_is_maximal(text, CharClass::Word, span.start);
        lemma_run_end_is_unique(head, CharClass::Word, span.start, span.end);
    } else if spec_is_digit(text[span.start as int]) {
        lemma_run_end_is_maximal(text, CharClass::Digit, span.start);
        lemma_run_end_is_unique(head, CharClass::Digit, span.start, span.end);
    }
    assert(head.subrange(span.start as int, span.end as int) =~= text.subrange(
        span.start as int,
        span.end as int,
    ));
}

/// Where a scanner of `head + tail` that starts at `from` comes to stand at
/// the end of `head` after `calls` calls, whitespace put in there changes
/// none of the tokens it returns.
proof fn lemma_tokens_across_seam(
    head: Seq<char>,
    gap: Seq<char>,
    tail: Seq<char>,
    from: nat,
    calls: nat,
    n: nat,
)
    requires
        is_whitespace_run(gap),
        from <= head.len(),
        offset_after(head + tail, from, calls) == head.len(),
    ensures
        nth_token(head + gap + tail, from, n) == nth_token(head + tail, from, n),
    decreases calls,
{
    let plain = head + tail;
    let spaced = head + gap + tail;
    lemma_scan_before_gap(head, gap, tail, from);
    if from == head.len() {
        assert(plain.skip(from as int) =~= tail.skip(0));
        lemma_scan_depends_on_rest(plain, from, tail, 0);
        if n > 0 {
            assert(spaced.skip(scan(spaced, from).end as int) =~= plain.skip(
                scan(plain, from).end as int,
            ));
            lemma_tokens_depend_on_rest(
                spaced,
                scan(spaced, from).end,
                plain,
                scan(plain, from).end,
                (n - 1) as nat,
            );
        }
    } else if scan(plain, from).kind == TokenType::Eof {
        lemma_scan_bounds(plain, from);
        lemma_offset_after_bounds(plain, scan(plain, from).end, (calls - 1) as nat);
        lemma_end_of_input_repeats(plain, from, n);
        lemma_end_of_input_repeats(spaced, from, n);
    } else {
        lemma_scan_bounds(plain, from);
        lemma_offset_after_bounds(plain, scan(plain, from).end, (calls - 1) as nat);
        lemma_scan_before_seam(head, tail, from);
        if n > 0 {
            lemma_tokens_across_seam(
                head,
                gap,
                tail,
                scan(plain, from).end,
                (calls - 1) as nat,
                (n - 1) as nat,
            );
        }
    }
}

/// Whitespace may be put between any two tokens, before the first and
/// after the last: where a scanner comes to stand at the end of `head`
/// after some number of calls, whitespace put in there changes no token.
pub proof fn lemma_whitespace_may_separate_tokens(
    head: Seq<char>,
    gap: Seq<char>,
    tail: Seq<char>,
    calls: nat,
    n: nat,
)
    requires
        is_blank(gap),
        offset_after(head + tail, 0, calls) == head.len(),
    ensures
        nth_token(head + gap + tail, 0, n) == nth_token(head + tail, 0, n),
{
    if gap.len() > 0 {
        lemma_tokens_across_seam(head, gap, tail, 0, calls, n);
    } else {
        assert(head + gap + tail =~= head + tail);
    }
}

} // verus!
