//! Directory completion: the word under the cursor, the directory to list
//! for it, and the candidates among that directory's entries.

use crate::text::{
    lemma_lex_le_antisymmetric, lemma_lex_le_reflexive, lemma_lex_le_total,
    lemma_lex_le_transitive, lex_le, rfind, spec_rfind, starts_with, str_le, to_chars,
};
use vstd::prelude::*;
use vstd::seq_lib::{
    to_multiset_build, to_multiset_contains, to_multiset_insert, to_multiset_len,
    to_multiset_remove,
};
use vstd::string::StringSliceAdditionalSpecFns;
use vstd::utf8::{
    decode_utf8_split, encode_scalar, encode_utf8, encode_utf8_decode_utf8,
    encode_utf8_valid_utf8, is_char_boundary, is_char_boundary_start_end_of_seq,
    is_continuation_byte, is_leading_byte_width_1, length_of_first_scalar, pop_first_scalar,
    valid_first_scalar, valid_utf8, valid_utf8_split,
};

verus! {

/// The byte that encodes a space.
pub const SPACE: u8 = 0x20;

/// The directory to list for a word, and the prefix that the names of its
/// entries must begin with.
#[derive(Debug, PartialEq, Eq)]
pub struct Target {
    pub dir: String,
    pub prefix: String,
}

/// An entry of a directory: its name, and whether it is itself a directory.
#[derive(Debug, PartialEq, Eq)]
pub struct DirEntry {
    pub name: String,
    pub is_dir: bool,
}

/// A completion candidate: the text shown and the text put in the line.
#[derive(Debug, PartialEq, Eq)]
pub struct Candidate {
    pub display: String,
    pub replacement: String,
}

/// Whether the word that ends at byte `pos` of `bytes` starts at byte
/// `start`: just after the nearest space before `pos`, or at the beginning
/// where there is none.
pub open spec fn is_word_start(bytes: Seq<u8>, start: int, pos: int) -> bool {
    &&& 0 <= start <= pos <= bytes.len()
    &&& start == 0 || bytes[start - 1] == SPACE
    &&& forall|j: int| start <= j < pos ==> #[trigger] bytes[j] != SPACE
}

/// Whether `word` stands in `line` between the texts `before` and `after`,
/// from byte offset `start` up to byte offset `pos`.
pub open spec fn stands_between(
    line: Seq<char>,
    before: Seq<char>,
    word: Seq<char>,
    after: Seq<char>,
    start: int,
    pos: int,
) -> bool {
    &&& line == before + word + after
    &&& encode_utf8(before).len() == start
    &&& encode_utf8(before + word).len() == pos
}

/// The directory to list and the name prefix to filter by, for the path
/// `path`. A path that names a directory is listed itself, with no filter.
/// Any other path is split after its last `/`: the part up to and including
/// that `/` is listed, or the current directory `.` where the path holds no
/// `/`, and what follows is the filter.
pub open spec fn spec_target(path: Seq<char>, is_dir: bool) -> (Seq<char>, Seq<char>) {
    if is_dir {
        (path, Seq::empty())
    } else {
        match spec_rfind(path, '/') {
            Some(i) => (path.take(i + 1), path.skip(i + 1)),
            None => (seq!['.'], path),
        }
    }
}

/// The candidate texts that the entries give, in the entries' order: the
/// name of each directory that begins with `prefix`, with `/` appended.
pub open spec fn spec_offers(entries: Seq<DirEntry>, prefix: Seq<char>) -> Seq<Seq<char>>
    decreases entries.len(),
{
    if entries.len() == 0 {
        Seq::empty()
    } else {
        let before = spec_offers(entries.drop_last(), prefix);
        let entry = entries.last();
        if entry.is_dir && prefix.is_prefix_of(entry.name@) {
            before.push(entry.name@.push('/'))
        } else {
            before
        }
    }
}

/// The texts that the candidates display.
pub open spec fn displays(candidates: Seq<Candidate>) -> Seq<Seq<char>> {
    candidates.map_values(|c: Candidate| c.display@)
}

/// Whether the texts stand in lexicographic order.
pub open spec fn is_sorted(texts: Seq<Seq<char>>) -> bool {
    forall|i: int, j: int|
        0 <= i < j < texts.len() ==> lex_le(#[trigger] texts[i], #[trigger] texts[j])
}

/// The word being completed: where it starts in `line`, as a byte offset,
/// and its text, which runs up to the cursor at byte offset `pos`. The word
/// starts just after the nearest space before the cursor, or at the
/// beginning of the line where there is none, and holds no space itself.
pub fn current_word(line: &str, pos: usize) -> (r: (usize, &str))
    requires
        is_char_boundary(line.spec_bytes(), pos as int),
    ensures
        is_word_start(line.spec_bytes(), r.0 as int, pos as int),
        r.1.spec_bytes() == line.spec_bytes().subrange(r.0 as int, pos as int),
        !r.1@.contains(' '),
        exists|before: Seq<char>, after: Seq<char>| #[trigger]
            stands_between(line@, before, r.1@, after, r.0 as int, pos as int),
{
    proof {
        encode_utf8_valid_utf8(line@);
        valid_utf8_split(line.spec_bytes(), pos as int);
    }
    let (head, tail) = line.split_at(pos);
    let bytes = head.as_bytes();
    let mut start: usize = pos;
    while start > 0 && bytes[start - 1] != SPACE
        invariant
            bytes@ == line.spec_bytes().subrange(0, pos as int),
            pos <= line.spec_bytes().len(),
            start <= pos,
            forall|j: int| start <= j < pos ==> #[trigger] bytes@[j] != SPACE,
        decreases start,
    {
        start -= 1;
    }
    proof {
        encode_utf8_valid_utf8(head@);
        if start == 0 {
            is_char_boundary_start_end_of_seq(bytes@);
        } else {
            lemma_boundary_after_space(bytes@, start - 1);
        }
        assert forall|j: int| start <= j < pos implies #[trigger] line.spec_bytes()[j]
            != SPACE by {
            assert(bytes@[j] == line.spec_bytes()[j]);
        }
    }
    let (before, word) = head.split_at(start);
    proof {
        assert(word.spec_bytes() =~= line.spec_bytes().subrange(start as int, pos as int));
        if word@.contains(' ') {
            let i = choose|i: int| 0 <= i < word@.len() && word@[i] == ' ';
            lemma_space_is_encoded(word@, i);
            let j = choose|j: int|
                0 <= j < encode_utf8(word@).len() && #[trigger] encode_utf8(word@)[j] == SPACE;
            assert(line.spec_bytes()[start + j] == SPACE);
        }
        lemma_split_texts(line@, head@, tail@, pos as int);
        lemma_split_texts(head@, before@, word@, start as int);
        assert(head@ == before@ + word@);
        assert(line@ == before@ + word@ + tail@);
        assert(encode_utf8(before@).len() == start);
        assert(encode_utf8(before@ + word@).len() == pos);
    }
    let r = (start, word);
    assert(stands_between(line@, before@, r.1@, tail@, r.0 as int, pos as int));
    r
}

/// Chooses the directory to list and the name prefix to filter by for the
/// tilde-expanded word `path`; `is_dir` says whether `path` names an
/// existing directory.
pub fn completion_target(path: &str, is_dir: bool) -> (target: Target)
    ensures
        (target.dir@, target.prefix@) == spec_target(path@, is_dir),
{
    if is_dir {
        return Target { dir: path.to_owned(), prefix: String::new() };
    }
    let chars = to_chars(path);
    match rfind(&chars, '/') {
        Some(i) => {
            let n: usize = chars.len();
            Target {
                dir: path.substring_char(0, i + 1).to_owned(),
                prefix: path.substring_char(i + 1, n).to_owned(),
            }
        },
        None => {
            proof {
                reveal_strlit(".");
                assert("."@ =~= seq!['.']);
            }
            Target { dir: ".".to_owned(), prefix: path.to_owned() }
        },
    }
}

/// Where `text` goes among the sorted candidates: after every candidate that
/// is not above it, before every candidate that is.
fn insertion_point(found: &Vec<Candidate>, text: &str) -> (p: usize)
    requires
        is_sorted(displays(found@)),
    ensures
        p <= found@.len(),
        forall|k: int| 0 <= k < p ==> lex_le(#[trigger] displays(found@)[k], text@),
        p == found@.len() || !lex_le(displays(found@)[p as int], text@),
{
    let ghost texts = displays(found@);
    let mut low: usize = 0;
    let mut high: usize = found.len();
    while low < high
        invariant
            texts == displays(found@),
            is_sorted(texts),
            low <= high <= found@.len(),
            forall|k: int| 0 <= k < low ==> lex_le(#[trigger] texts[k], text@),
            forall|k: int| high <= k < texts.len() ==> !lex_le(#[trigger] texts[k], text@),
        decreases high - low,
    {
        let middle: usize = low + (high - low) / 2;
        if str_le(found[middle].display.as_str(), text) {
            proof {
                assert forall|k: int| 0 <= k < middle + 1 implies lex_le(
                    #[trigger] texts[k],
                    text@,
                ) by {
                    if k < middle {
                        lemma_lex_le_transitive(texts[k], texts[middle as int], text@);
                    }
                }
            }
            low = middle + 1;
        } else {
            proof {
                assert forall|k: int| middle <= k < texts.len() implies !lex_le(
                    #[trigger] texts[k],
                    text@,
                ) by {
                    if k > middle && lex_le(texts[k], text@) {
                        lemma_lex_le_transitive(texts[middle as int], texts[k], text@);
                    }
                }
            }
            high = middle;
        }
    }
    low
}

/// The completion candidates among `entries`: one for each directory whose
/// name begins with `prefix`, its text the name followed by `/`, in
/// lexicographic order of that text. A candidate replaces the word with the
/// text that it displays.
pub fn candidates(entries: &Vec<DirEntry>, prefix: &str) -> (found: Vec<Candidate>)
    ensures
        is_sorted(displays(found@)),
        displays(found@).to_multiset() == spec_offers(entries@, prefix@).to_multiset(),
        forall|i: int|
            0 <= i < found@.len() ==> (#[trigger] found@[i]).replacement@ == found@[i].display@
                && found@[i].display@.len() > 0 && found@[i].display@.last() == '/',
{
    let mut found: Vec<Candidate> = Vec::new();
    let n: usize = entries.len();
    let mut i: usize = 0;
    assert(entries@.take(0) =~= Seq::<DirEntry>::empty());
    assert(displays(found@) =~= Seq::<Seq<char>>::empty());
    while i < n
        invariant
            n == entries@.len(),
            i <= n,
            is_sorted(displays(found@)),
            displays(found@).to_multiset() == spec_offers(
                entries@.take(i as int),
                prefix@,
            ).to_multiset(),
            forall|k: int|
                0 <= k < found@.len() ==> (#[trigger] found@[k]).replacement@
                    == found@[k].display@ && found@[k].display@.len() > 0
                    && found@[k].display@.last() == '/',
        decreases n - i,
    {
        let entry = &entries[i];
        assert(entries@.take(i + 1).drop_last() =~= entries@.take(i as int));
        assert(entries@.take(i + 1).last() == entries@[i as int]);
        if entry.is_dir && starts_with(entry.name.as_str(), prefix) {
            let mut text = entry.name.clone();
            text.append("/");
            proof {
                reveal_strlit("/");
                assert(text@ =~= entry.name@.push('/'));
            }
            let p: usize = insertion_point(&found, text.as_str());
            let candidate = Candidate { display: text.clone(), replacement: text };
            proof {
                let texts = displays(found@);
                lemma_insert_keeps_sorted(texts, p as int, candidate.display@);
                assert(displays(found@.insert(p as int, candidate)) =~= texts.insert(
                    p as int,
                    candidate.display@,
                ));
                to_multiset_insert(texts, p as int, candidate.display@);
                to_multiset_build(
                    spec_offers(entries@.take(i as int), prefix@),
                    candidate.display@,
                );
            }
            found.insert(p, candidate);
        }
        i += 1;
    }
    assert(entries@.take(n as int) =~= entries@);
    found
}

/// In valid UTF-8 the position after a space byte begins a character or
/// ends the text.
pub proof fn lemma_boundary_after_space(bytes: Seq<u8>, i: int)
    requires
        valid_utf8(bytes),
        0 <= i < bytes.len(),
        bytes[i] == SPACE,
    ensures
        is_char_boundary(bytes, i + 1),
    decreases bytes.len(),
{
    let width = length_of_first_scalar(bytes);
    let rest = pop_first_scalar(bytes);
    assert(valid_first_scalar(bytes) && valid_utf8(rest));
    if i == 0 {
        assert(is_leading_byte_width_1(bytes[0]));
        assert(width == 1);
        assert(is_char_boundary(rest, 0));
    } else if i < width {
        assert(is_continuation_byte(bytes[i]));
    } else {
        assert(rest[i - width] == bytes[i]);
        lemma_boundary_after_space(rest, i - width);
    }
}

/// A space among the characters is a space byte among their UTF-8 bytes.
pub proof fn lemma_space_is_encoded(chars: Seq<char>, i: int)
    requires
        0 <= i < chars.len(),
        chars[i] == ' ',
    ensures
        exists|j: int|
            0 <= j < encode_utf8(chars).len() && #[trigger] encode_utf8(chars)[j] == SPACE,
    decreases chars.len(),
{
    let first = encode_scalar(chars[0] as u32);
    let rest = encode_utf8(chars.drop_first());
    assert(encode_utf8(chars) == first + rest);
    if i == 0 {
        let scalar = chars[0] as u32;
        assert(scalar == 0x20);
        assert((scalar & 0x7F) as u8 == 0x20u8) by (bit_vector)
            requires
                scalar == 0x20u32,
        ;
        assert(first[0] == SPACE);
        assert(encode_utf8(chars)[0] == SPACE);
    } else {
        assert(chars.drop_first()[i - 1] == chars[i]);
        lemma_space_is_encoded(chars.drop_first(), i - 1);
        let j = choose|j: int| 0 <= j < rest.len() && #[trigger] rest[j] == SPACE;
        assert(encode_utf8(chars)[first.len() + j] == SPACE);
    }
}

/// A text split at a character boundary of its UTF-8 bytes is the two
/// parts' texts, one after the other.
proof fn lemma_split_texts(whole: Seq<char>, left: Seq<char>, right: Seq<char>, at: int)
    requires
        is_char_boundary(encode_utf8(whole), at),
        encode_utf8(left) == encode_utf8(whole).subrange(0, at),
        encode_utf8(right) == encode_utf8(whole).subrange(at, encode_utf8(whole).len() as int),
    ensures
        whole == left + right,
{
    encode_utf8_valid_utf8(whole);
    decode_utf8_split(encode_utf8(whole), at);
    encode_utf8_decode_utf8(whole);
    encode_utf8_decode_utf8(left);
    encode_utf8_decode_utf8(right);
}

/// Inserting `text` into sorted texts, after everything that is not above
/// it and before the first text that is, keeps them sorted.
proof fn lemma_insert_keeps_sorted(texts: Seq<Seq<char>>, p: int, text: Seq<char>)
    requires
        is_sorted(texts),
        0 <= p <= texts.len(),
        forall|k: int| 0 <= k < p ==> lex_le(#[trigger] texts[k], text),
        p == texts.len() || !lex_le(texts[p], text),
    ensures
        is_sorted(texts.insert(p, text)),
{
    let out = texts.insert(p, text);
    assert forall|i: int, j: int| 0 <= i < j < out.len() implies lex_le(
        #[trigger] out[i],
        #[trigger] out[j],
    ) by {
        if j == p {
            assert(out[i] == texts[i]);
        } else if i == p {
            assert(out[j] == texts[j - 1]);
            lemma_lex_le_total(texts[p], text);
            if j - 1 > p {
                lemma_lex_le_transitive(text, texts[p], texts[j - 1]);
            }
        } else {
            let a = if i < p { i } else { i - 1 };
            let b = if j < p { j } else { j - 1 };
            assert(out[i] == texts[a]);
            assert(out[j] == texts[b]);
        }
    }
}

/// Only directories are offered: every text on offer is the name of an
/// entry that is a directory and begins with the prefix, followed by `/`.
pub proof fn lemma_offers_are_directories(entries: Seq<DirEntry>, prefix: Seq<char>, i: int)
    requires
        0 <= i < spec_offers(entries, prefix).len(),
    ensures
        exists|j: int|
            0 <= j < entries.len() && (#[trigger] entries[j]).is_dir && prefix.is_prefix_of(
                entries[j].name@,
            ) && spec_offers(entries, prefix)[i] == entries[j].name@.push('/'),
    decreases entries.len(),
{
    let before = entries.drop_last();
    let last = entries.len() - 1;
    if i < spec_offers(before, prefix).len() {
        lemma_offers_are_directories(before, prefix, i);
        let j = choose|j: int|
            0 <= j < before.len() && (#[trigger] before[j]).is_dir && prefix.is_prefix_of(
                before[j].name@,
            ) && spec_offers(before, prefix)[i] == before[j].name@.push('/');
        assert(entries[j] == before[j]);
    } else {
        assert(entries[last].is_dir);
    }
}

/// Every directory that begins with the prefix is offered.
pub proof fn lemma_directories_are_offered(entries: Seq<DirEntry>, prefix: Seq<char>, j: int)
    requires
        0 <= j < entries.len(),
        entries[j].is_dir,
        prefix.is_prefix_of(entries[j].name@),
    ensures
        spec_offers(entries, prefix).contains(entries[j].name@.push('/')),
    decreases entries.len(),
{
    let before = entries.drop_last();
    let offers = spec_offers(entries, prefix);
    if j < entries.len() - 1 {
        lemma_directories_are_offered(before, prefix, j);
        let text = before[j].name@.push('/');
        let i = choose|i: int|
            0 <= i < spec_offers(before, prefix).len() && spec_offers(before, prefix)[i] == text;
        assert(offers[i] == text);
    } else {
        assert(offers[offers.len() - 1] == entries[j].name@.push('/'));
    }
}

/// Two sorted sequences of texts that hold the same texts, each as often in
/// the one as in the other, are the same sequence: sorting leaves no choice.
pub proof fn lemma_sorted_texts_are_unique(a: Seq<Seq<char>>, b: Seq<Seq<char>>)
    requires
        is_sorted(a),
        is_sorted(b),
        a.to_multiset() == b.to_multiset(),
    ensures
        a == b,
    decreases a.len(),
{
    to_multiset_len(a);
    to_multiset_len(b);
    if a.len() > 0 {
        to_multiset_contains(a, a[0]);
        to_multiset_contains(b, a[0]);
        to_multiset_contains(a, b[0]);
        to_multiset_contains(b, b[0]);
        assert(a.contains(a[0]));
        assert(b.contains(b[0]));
        let i = choose|i: int| 0 <= i < b.len() && b[i] == a[0];
        let j = choose|j: int| 0 <= j < a.len() && a[j] == b[0];
        lemma_lex_le_reflexive(a[0]);
        assert(lex_le(b[0], a[0])) by {
            if i > 0 {
                assert(lex_le(b[0], b[i]));
            }
        }
        assert(lex_le(a[0], b[0])) by {
            if j > 0 {
                assert(lex_le(a[0], a[j]));
            }
        }
        lemma_lex_le_antisymmetric(a[0], b[0]);
        let a1 = a.drop_first();
        let b1 = b.drop_first();
        assert(a1 =~= a.remove(0));
        assert(b1 =~= b.remove(0));
        to_multiset_remove(a, 0);
        to_multiset_remove(b, 0);
        assert forall|x: int, y: int| 0 <= x < y < a1.len() implies lex_le(
            #[trigger] a1[x],
            #[trigger] a1[y],
        ) by {
            assert(a1[x] == a[x + 1] && a1[y] == a[y + 1]);
        }
        assert forall|x: int, y: int| 0 <= x < y < b1.len() implies lex_le(
            #[trigger] b1[x],
            #[trigger] b1[y],
        ) by {
            assert(b1[x] == b[x + 1] && b1[y] == b[y + 1]);
        }
        lemma_sorted_texts_are_unique(a1, b1);
        assert forall|k: int| 0 <= k < a.len() implies a[k] == b[k] by {
            if k > 0 {
                assert(a[k] == a1[k - 1]);
                assert(b[k] == b1[k - 1]);
            }
        }
        assert(a =~= b);
    } else {
        assert(a =~= b);
    }
}

} // verus!
