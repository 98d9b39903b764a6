//! The word lists: two texts of one word to the line, split into their
//! lines.

use vstd::prelude::*;
use vstd::std_specs::iter::IteratorSpec;

verus! {

/// `String::push` appends one character to the end of the string.
pub assume_specification[ String::push ](s: &mut String, ch: char)
    ensures
        final(s)@ == old(s)@.push(ch),
;

/// The words of a list, each as its characters.
pub open spec fn words_of(list: Seq<String>) -> Seq<Seq<char>> {
    Seq::new(list.len(), |i: int| list[i]@)
}

/// A line as it is handed out: without the carriage return that stood before
/// its line feed, if one did.
pub open spec fn without_return(line: Seq<char>) -> Seq<char> {
    if line.len() > 0 && line.last() == '\r' {
        line.drop_last()
    } else {
        line
    }
}

/// The lines that `text` has completed, and the characters of the line that
/// is still open at its end.
pub open spec fn scanned(text: Seq<char>) -> (Seq<Seq<char>>, Seq<char>)
    decreases text.len(),
{
    if text.len() == 0 {
        (Seq::empty(), Seq::empty())
    } else {
        let (done, open) = scanned(text.drop_last());
        if text.last() == '\n' {
            (done.push(without_return(open)), Seq::empty())
        } else {
            (done, open.push(text.last()))
        }
    }
}

/// The lines of `text`. A line ends at a line feed, or at a carriage return
/// and a line feed; neither belongs to it. What follows the last line feed
/// is a line too, unless it is empty.
pub open spec fn lines_of(text: Seq<char>) -> Seq<Seq<char>> {
    let (done, open) = scanned(text);
    if open.len() > 0 {
        done.push(open)
    } else {
        done
    }
}

/// The text that holds each of `words` on a line of its own, each line
/// ended by a line feed.
pub open spec fn text_of_lines(words: Seq<Seq<char>>) -> Seq<char>
    decreases words.len(),
{
    if words.len() == 0 {
        Seq::empty()
    } else {
        text_of_lines(words.drop_last()) + words.last().push('\n')
    }
}

/// A word that a line can hold unchanged: it has no line feed in it and no
/// carriage return at its end.
pub open spec fn fits_a_line(word: Seq<char>) -> bool {
    !word.contains('\n') && (word.len() == 0 || word.last() != '\r')
}

/// Characters without a line feed only lengthen the line that is open.
pub proof fn lemma_scanned_within_line(text: Seq<char>, more: Seq<char>)
    requires
        !more.contains('\n'),
    ensures
        scanned(text + more) == (scanned(text).0, scanned(text).1 + more),
    decreases more.len(),
{
    if more.len() == 0 {
        assert(text + more =~= text);
        assert(scanned(text).1 + more =~= scanned(text).1);
    } else {
        let front = more.drop_last();
        if front.contains('\n') {
            let i = choose|i: int| 0 <= i < front.len() && front[i] == '\n';
            assert(more[i] == '\n');
        }
        assert(more[more.len() - 1] == more.last());
        lemma_scanned_within_line(text, front);
        assert((text + more).drop_last() =~= text + front);
        assert((text + more).last() == more.last());
        assert((scanned(text).1 + front).push(more.last()) =~= scanned(text).1 + more);
    }
}

/// Words written one to the line are the lines of the text.
pub proof fn lemma_lines_of_written_words(words: Seq<Seq<char>>)
    requires
        forall|i: int| 0 <= i < words.len() ==> fits_a_line(#[trigger] words[i]),
    ensures
        scanned(text_of_lines(words)) == (words, Seq::<char>::empty()),
        lines_of(text_of_lines(words)) == words,
    decreases words.len(),
{
    if words.len() == 0 {
        assert(words =~= Seq::empty());
    } else {
        let front = words.drop_last();
        let last = words.last();
        lemma_lines_of_written_words(front);
        let text = text_of_lines(front);
        lemma_scanned_within_line(text, last);
        let full = text + last.push('\n');
        assert(full.drop_last() =~= text + last);
        assert(full.last() == '\n');
        assert(scanned(text).1 + last =~= last);
        assert(front.push(last) =~= words);
    }
}

/// Splits `text` into its lines.
pub fn split_lines(text: &str) -> (lines: Vec<String>)
    ensures
        words_of(lines@) == lines_of(text@),
{
    broadcast use vstd::string::group_string_axioms;

    let mut lines: Vec<String> = Vec::new();
    let mut current = String::new();
    let mut pending = false;
    let mut rest = text.chars();
    let ghost mut seen: Seq<char> = Seq::empty();
    assert(words_of(lines@) =~= Seq::empty());
    loop
        invariant
            rest.obeys_prophetic_iter_laws(),
            rest.decrease() is Some,
            seen + rest.remaining() == text@,
            words_of(lines@) == scanned(seen).0,
            scanned(seen).1 == if pending {
                current@.push('\r')
            } else {
                current@
            },
            !pending ==> current@.len() == 0 || current@.last() != '\r',
        ensures
            seen == text@,
        decreases rest.decrease()->0,
    {
        let ghost before = rest.remaining();
        let ghost lines_before = lines@;
        match rest.next() {
            Some(c) => {
                proof {
                    assert(current@.push('\r').drop_last() =~= current@);
                    assert(seen.push(c).drop_last() =~= seen);
                    assert(seen.push(c) + rest.remaining() =~= seen + before);
                    seen = seen.push(c);
                }
                if c == '\n' {
                    lines.push(current);
                    assert(words_of(lines@) =~= words_of(lines_before).push(current@));
                    current = String::new();
                    pending = false;
                } else {
                    if pending {
                        current.push('\r');
                    }
                    if c == '\r' {
                        pending = true;
                    } else {
                        pending = false;
                        current.push(c);
                    }
                }
            },
            None => {
                assert(seen =~= text@);
                break ;
            },
        }
    }
    if pending {
        current.push('\r');
    }
    if !current.as_str().is_empty() {
        let ghost lines_before = lines@;
        lines.push(current);
        assert(words_of(lines@) =~= words_of(lines_before).push(current@));
    }
    lines
}

} // verus!
