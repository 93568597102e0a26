use vstd::prelude::*;
use crate::chars::{CharClass, classes_of, classify_all, push_char};

verus! {

/// A highlight key: a line index and a word index within that line.
pub type Key = (usize, usize);

/// The pieces of `cs` between line feeds, the last one included even when empty.
pub open spec fn segments(cs: Seq<CharClass>) -> Seq<Seq<CharClass>>
    decreases cs.len(),
{
    if cs.len() == 0 {
        seq![Seq::empty()]
    } else {
        let prev = segments(cs.drop_last());
        if cs.last().ch == '\n' {
            prev.push(Seq::empty())
        } else {
            prev.drop_last().push(prev.last().push(cs.last()))
        }
    }
}

/// The words of one line: its maximal runs of non-whitespace characters.
pub open spec fn words_of(cs: Seq<CharClass>) -> Seq<Seq<char>>
    decreases cs.len(),
{
    if cs.len() == 0 {
        Seq::empty()
    } else {
        let prev = cs.drop_last();
        let ws = words_of(prev);
        let c = cs.last();
        if c.whitespace {
            ws
        } else if prev.len() > 0 && !prev.last().whitespace {
            ws.drop_last().push(ws.last().push(c.ch))
        } else {
            ws.push(seq![c.ch])
        }
    }
}

/// The lines of a text: its segments, without the empty one after a final line feed.
pub open spec fn lines_of(cs: Seq<CharClass>) -> Seq<Seq<CharClass>> {
    let segs = segments(cs);
    if segs.last().len() == 0 {
        segs.drop_last()
    } else {
        segs
    }
}

/// The document of a text: the words of each of its lines.
pub open spec fn document_of(cs: Seq<CharClass>) -> Seq<Seq<Seq<char>>> {
    lines_of(cs).map_values(|l: Seq<CharClass>| words_of(l))
}

/// The strings of `v` as character sequences.
pub open spec fn strings_view(v: Seq<String>) -> Seq<Seq<char>> {
    v.map_values(|w: String| w@)
}

/// The lines of `v` as sequences of character sequences.
pub open spec fn lines_view(v: Seq<Vec<String>>) -> Seq<Seq<Seq<char>>> {
    v.map_values(|l: Vec<String>| strings_view(l@))
}

/// Whether `k` names a word of `doc`.
pub open spec fn key_in(doc: Seq<Seq<Seq<char>>>, k: Key) -> bool {
    k.0 < doc.len() && k.1 < doc[k.0 as int].len()
}

/// The highlight set after toggling `k`: removed if present, added if absent,
/// untouched if it names no word of `doc`.
pub open spec fn toggled(doc: Seq<Seq<Seq<char>>>, h: Set<Key>, k: Key) -> Set<Key> {
    if !key_in(doc, k) {
        h
    } else if h.contains(k) {
        h.remove(k)
    } else {
        h.insert(k)
    }
}

/// A loaded document and the words of it that are highlighted.
pub struct TextViewer {
    pub lines: Vec<Vec<String>>,
    pub highlighted: Vec<Key>,
}

impl TextViewer {
    /// The document as words.
    pub open spec fn doc(&self) -> Seq<Seq<Seq<char>>> {
        lines_view(self.lines@)
    }

    /// The highlighted keys.
    pub open spec fn highlights(&self) -> Set<Key> {
        self.highlighted@.to_set()
    }

    /// Each highlighted key is held once.
    pub open spec fn wf(&self) -> bool {
        self.highlighted@.no_duplicates()
    }

    /// An empty viewer: no lines, nothing highlighted.
    pub fn new() -> (r: Self)
        ensures
            r.wf(),
            r.doc() == Seq::<Seq<Seq<char>>>::empty(),
            r.highlights() == Set::<Key>::empty(),
    {
        let r = TextViewer { lines: Vec::new(), highlighted: Vec::new() };
        assert(r.doc() =~= Seq::<Seq<Seq<char>>>::empty());
        assert(r.highlighted@.to_set() =~= Set::<Key>::empty());
        r
    }

    /// Replaces the document by the lines of the classified text `cs`, each
    /// split into words at whitespace, and clears the highlights.
    pub fn load_classes(&mut self, cs: &Vec<CharClass>)
        ensures
            final(self).wf(),
            final(self).doc() == document_of(cs@),
            final(self).highlights() == Set::<Key>::empty(),
            forall|k: Key| !(#[trigger] final(self).highlights().contains(k)),
    {
        let mut done: Vec<Vec<String>> = Vec::new();
        let mut words: Vec<String> = Vec::new();
        let mut word = String::new();
        let mut in_word: bool = false;
        let mut seg_nonempty: bool = false;
        let mut i: usize = 0;
        while i < cs.len()
            invariant
                0 <= i <= cs.len(),
                segments(cs@.take(i as int)).len() == done.len() + 1,
                lines_view(done@) == segments(cs@.take(i as int)).drop_last().map_values(
                    |l: Seq<CharClass>| words_of(l),
                ),
                seg_nonempty == (segments(cs@.take(i as int)).last().len() > 0),
                in_word == (segments(cs@.take(i as int)).last().len() > 0 && !segments(
                    cs@.take(i as int),
                ).last().last().whitespace),
                in_word ==> strings_view(words@).push(word@) == words_of(
                    segments(cs@.take(i as int)).last(),
                ),
                !in_word ==> strings_view(words@) == words_of(segments(cs@.take(i as int)).last()),
            decreases cs.len() - i,
        {
            let c = cs[i];
            let ghost p = cs@.take(i as int);
            let ghost segs = segments(p);
            let ghost last = segs.last();
            assert(cs@.take(i as int + 1).drop_last() =~= p);
            assert(cs@.take(i as int + 1).last() == c);
            let ghost nsegs = segments(cs@.take(i as int + 1));
            if in_word && (c.ch == '\n' || c.whitespace) {
                let w = word;
                word = String::new();
                proof {
                    assert(strings_view(words@.push(w)) =~= strings_view(words@).push(w@));
                }
                words.push(w);
                in_word = false;
            }
            if c.ch == '\n' {
                let line = words;
                words = Vec::new();
                proof {
                    assert(nsegs == segs.push(Seq::empty()));
                    assert(nsegs.drop_last() =~= segs);
                    assert(segs =~= segs.drop_last().push(last));
                    assert(lines_view(done@.push(line)) =~= lines_view(done@).push(
                        strings_view(line@),
                    ));
                    assert(strings_view(words@) =~= Seq::<Seq<char>>::empty());
                }
                done.push(line);
                seg_nonempty = false;
                proof {
                    assert(segments(cs@.take(i as int + 1)).drop_last().map_values(
                        |l: Seq<CharClass>| words_of(l),
                    ) =~= segs.drop_last().map_values(|l: Seq<CharClass>| words_of(l)).push(
                        words_of(last),
                    ));
                }
            } else {
                proof {
                    assert(nsegs == segs.drop_last().push(last.push(c)));
                    assert(nsegs.drop_last() =~= segs.drop_last());
                    assert(last.push(c).drop_last() =~= last);
                }
                if !c.whitespace {
                    if in_word {
                        let ghost before = word@;
                        push_char(&mut word, c.ch);
                        proof {
                            let ws = words_of(last);
                            assert(ws =~= strings_view(words@).push(before));
                            assert(ws.drop_last() =~= strings_view(words@));
                        }
                    } else {
                        word = String::new();
                        push_char(&mut word, c.ch);
                        in_word = true;
                    }
                }
                seg_nonempty = true;
                assert(strings_view(words@).push(word@).drop_last() =~= strings_view(words@));
            }
            i = i + 1;
        }
        assert(cs@.take(cs.len() as int) =~= cs@);
        if seg_nonempty {
            if in_word {
                proof {
                    assert(strings_view(words@.push(word)) =~= strings_view(words@).push(word@));
                }
                words.push(word);
            }
            proof {
                let segs = segments(cs@);
                assert(segs =~= segs.drop_last().push(segs.last()));
                assert(lines_view(done@.push(words)) =~= lines_view(done@).push(
                    strings_view(words@),
                ));
            }
            done.push(words);
        }
        self.lines = done;
        self.highlighted = Vec::new();
        proof {
            assert(self.doc() =~= document_of(cs@));
            assert(self.highlighted@.to_set() =~= Set::<Key>::empty());
        }
    }

    /// Replaces the document by the lines of `content`, each split into words
    /// at whitespace, and clears the highlights.
    pub fn load_text(&mut self, content: &str)
        ensures
            final(self).wf(),
            final(self).doc() == document_of(classes_of(content@)),
            final(self).highlights() == Set::<Key>::empty(),
            forall|k: Key| !(#[trigger] final(self).highlights().contains(k)),
    {
        let cs = classify_all(content);
        self.load_classes(&cs);
    }

    /// Whether the word at `(line, word)` is highlighted.
    pub fn is_highlighted(&self, line: usize, word: usize) -> (r: bool)
        ensures
            r == self.highlights().contains((line, word)),
    {
        let n = self.highlighted.len();
        let mut j: usize = 0;
        while j < n
            invariant
                0 <= j <= n,
                n == self.highlighted.len(),
                forall|m: int| 0 <= m < j ==> self.highlighted@[m] != (line, word),
            decreases n - j,
        {
            let (a, b) = self.highlighted[j];
            if a == line && b == word {
                assert(self.highlighted@[j as int] == (line, word));
                return true;
            }
            j = j + 1;
        }
        false
    }

    /// The number of highlighted words.
    pub fn highlight_count(&self) -> (r: usize)
        requires
            self.wf(),
        ensures
            r == self.highlights().len(),
    {
        proof {
            self.highlighted@.unique_seq_to_set();
        }
        self.highlighted.len()
    }

    /// Highlights the word at `(line, word)` if it is not highlighted, and
    /// takes its highlight away if it is; does nothing if the document has no
    /// such word.
    pub fn toggle_highlight(&mut self, line: usize, word: usize)
        requires
            old(self).wf(),
        ensures
            final(self).wf(),
            final(self).doc() == old(self).doc(),
            final(self).highlights() == toggled(old(self).doc(), old(self).highlights(), (line, word)),
    {
        if line >= self.lines.len() || word >= self.lines[line].len() {
            return;
        }
        let ghost k: Key = (line, word);
        let ghost h0 = self.highlighted@;
        assert(key_in(self.doc(), k));
        let n = self.highlighted.len();
        let mut j: usize = 0;
        while j < n
            invariant
                0 <= j <= n,
                n == self.highlighted.len(),
                self.highlighted@ == h0,
                self.lines == old(self).lines,
                h0 == old(self).highlighted@,
                h0.no_duplicates(),
                k == (line, word),
                key_in(old(self).doc(), k),
                forall|m: int| 0 <= m < j ==> self.highlighted@[m] != k,
            decreases n - j,
        {
            let e: Key = self.highlighted[j];
            assert(e == h0[j as int]);
            if e.0 == line && e.1 == word {
                assert(h0[j as int] == k);
                self.highlighted.remove(j);
                proof {
                    let h1 = self.highlighted@;
                    assert(h1 =~= h0.remove(j as int));
                    assert(h0.contains(k));
                    assert forall|x: Key| h1.contains(x) <==> (h0.contains(x) && x != k) by {
                        if h1.contains(x) {
                            let m = choose|m: int| 0 <= m < h1.len() && h1[m] == x;
                            if m < j {
                                assert(h0[m] == x);
                            } else {
                                assert(h0[m + 1] == x);
                                assert(h0[j as int] == k);
                            }
                        }
                        if h0.contains(x) && x != k {
                            let m = choose|m: int| 0 <= m < h0.len() && h0[m] == x;
                            if m < j {
                                assert(h1[m] == x);
                            } else {
                                assert(m != j);
                                assert(h1[m - 1] == x);
                            }
                        }
                    }
                    assert(h1.to_set() =~= h0.to_set().remove(k));
                    assert forall|p: int, q: int| 0 <= p < h1.len() && 0 <= q < h1.len() && p != q
                        implies h1[p] != h1[q] by {
                        let pp = if p < j { p } else { p + 1 };
                        let qq = if q < j { q } else { q + 1 };
                        assert(h1[p] == h0[pp]);
                        assert(h1[q] == h0[qq]);
                    }
                }
                return;
            }
            j = j + 1;
        }
        self.highlighted.push((line, word));
        proof {
            let h1 = self.highlighted@;
            assert(!h0.contains(k));
            assert(h1 =~= h0.push(k));
            assert forall|x: Key| h1.contains(x) <==> (h0.contains(x) || x == k) by {
                if h1.contains(x) {
                    let m = choose|m: int| 0 <= m < h1.len() && h1[m] == x;
                    if m < h0.len() {
                        assert(h0[m] == x);
                    }
                }
                if h0.contains(x) {
                    let m = choose|m: int| 0 <= m < h0.len() && h0[m] == x;
                    assert(h1[m] == x);
                }
                assert(h1[h0.len() as int] == k);
            }
            assert(h1.to_set() =~= h0.to_set().insert(k));
            assert forall|p: int, q: int| 0 <= p < h1.len() && 0 <= q < h1.len() && p != q
                implies h1[p] != h1[q] by {
                if p < h0.len() && q < h0.len() {
                    assert(h1[p] == h0[p]);
                    assert(h1[q] == h0[q]);
                }
            }
        }
    }
}

/// Toggling the same key twice leaves the highlight set as it was.
pub proof fn lemma_toggle_twice(doc: Seq<Seq<Seq<char>>>, h: Set<Key>, k: Key)
    ensures
        toggled(doc, toggled(doc, h, k), k) == h,
{
    if key_in(doc, k) {
        if h.contains(k) {
            assert(h.remove(k).insert(k) =~= h);
        } else {
            assert(h.insert(k).remove(k) =~= h);
        }
    }
}

} // verus!
