use vstd::prelude::*;

verus! {

broadcast use vstd::string::group_string_axioms;

/// The word's letters, each marked where it was guessed.
pub struct Hangman {
    pub word: String,
    pub guessed: Vec<bool>,
    pub guesses: Vec<char>,
    pub wrong: usize,
}

/// A game as values: the word, the marks, the letters guessed and the
/// number of wrong guesses.
pub type HangmanView = (Seq<char>, Seq<bool>, Seq<char>, nat);

impl View for Hangman {
    type V = HangmanView;

    open spec fn view(&self) -> HangmanView {
        (self.word@, self.guessed@, self.guesses@, self.wrong as nat)
    }
}

/// Guessing `c`: a letter guessed before changes nothing; otherwise a
/// letter not in the word counts as wrong, the positions holding it are
/// marked and it is remembered.
pub open spec fn after_guess(h: HangmanView, c: char) -> HangmanView {
    if h.2.contains(c) {
        h
    } else {
        (h.0, marked(h.0, h.1, c), h.2.push(c), h.3 + if h.0.contains(c) { 0nat } else { 1nat })
    }
}

/// Guessing the letters of `cs` in order.
pub open spec fn after_guesses(h: HangmanView, cs: Seq<char>) -> HangmanView
    decreases cs.len(),
{
    if cs.len() == 0 {
        h
    } else {
        after_guess(after_guesses(h, cs.drop_last()), cs.last())
    }
}

/// Guessing a letter a second time changes nothing.
pub proof fn lemma_guess_twice(h: HangmanView, c: char)
    ensures
        after_guess(after_guess(h, c), c) == after_guess(h, c),
{
    if !h.2.contains(c) {
        assert(h.2.push(c)[h.2.len() as int] == c);
    }
}

/// A guess never takes a mark away, and it marks exactly the positions of
/// the word that hold the letter.
pub proof fn lemma_guess_marks(h: HangmanView, c: char)
    ensures
        after_guess(h, c).1.len() == h.1.len(),
        forall|i: int| 0 <= i < h.1.len() && h.1[i] ==> after_guess(h, c).1[i],
        !h.2.contains(c) ==> forall|i: int| 0 <= i < h.1.len() && i < h.0.len() && h.0[i] == c ==> after_guess(h, c).1[i],
{
}

proof fn lemma_wrong_grows(h: HangmanView, cs: Seq<char>, i: int)
    requires
        0 <= i <= cs.len(),
    ensures
        after_guesses(h, cs.take(i)).3 <= after_guesses(h, cs).3,
    decreases cs.len(),
{
    if i < cs.len() {
        assert(cs.drop_last().take(i) =~= cs.take(i));
        lemma_wrong_grows(h, cs.drop_last(), i);
    } else {
        assert(cs.take(i) =~= cs);
    }
}

/// `guessed` with every position of `word` that holds `c` marked.
pub open spec fn marked(word: Seq<char>, guessed: Seq<bool>, c: char) -> Seq<bool> {
    Seq::new(guessed.len(), |i: int| guessed[i] || (i < word.len() && word[i] == c))
}

/// The drawing after `g` wrong guesses: the character at row `r`, column
/// `c` of a 5 by 7 picture.
pub open spec fn drawing(g: nat, r: int, c: int) -> char {
    if r == 4 && (c == 0 || c == 2) && g > 0 {
        if c == 0 { '/' } else { '\\' }
    } else if (r == 3 || r == 2) && c == 1 && g > 1 {
        '|'
    } else if r == 1 && c == 1 && g > 2 {
        '/'
    } else if r == 0 && 2 <= c <= 4 && g > 3 {
        '-'
    } else if r == 0 && c == 5 && g > 4 {
        '|'
    } else if r == 1 && c == 5 && g > 5 {
        if g > 8 { 'x' } else { 'o' }
    } else if r == 2 && 4 <= c <= 6 && g > 6 {
        if c == 4 { '/' } else if c == 5 { '|' } else { '\\' }
    } else if r == 3 && (c == 4 || c == 6) && g > 7 {
        if c == 4 { '/' } else { '\\' }
    } else {
        ' '
    }
}

/// The characters of `s`, in order.
fn chars_of(s: &String) -> (v: Vec<char>)
    ensures
        v@ == s@,
{
    let mut v: Vec<char> = Vec::new();
    let mut it = s.as_str().chars();
    let ghost all = s@;
    loop
        invariant
            all == s@,
            vstd::std_specs::iter::IteratorSpec::remaining(&it) == all.skip(v@.len() as int),
            v@ == all.take(v@.len() as int),
            v@.len() <= all.len(),
        ensures
            v@ == all,
        decreases all.len() - v@.len(),
    {
        match it.next() {
            Some(ch) => {
                assert(all.skip(v@.len() as int).len() > 0);
                v.push(ch);
                assert(v@ =~= all.take(v@.len() as int));
                assert(vstd::std_specs::iter::IteratorSpec::remaining(&it) =~= all.skip(v@.len() as int));
            },
            None => {
                assert(all.skip(v@.len() as int).len() == 0);
                assert(v@ =~= all);
                break;
            },
        }
    }
    v
}

impl Hangman {
    /// A game on `word`: nothing guessed, one mark for each byte of the
    /// word.
    pub fn new(word: String) -> (h: Hangman)
        ensures
            h.word@ == word@,
            h.guessed@.len() == vstd::utf8::encode_utf8(word@).len() as usize,
            forall|i: int| 0 <= i < h.guessed@.len() ==> !h.guessed@[i],
            h.guesses@ == Seq::<char>::empty(),
            h.wrong == 0,
    {
        let n = word.as_str().len();
        let mut guessed: Vec<bool> = Vec::new();
        let mut i: usize = 0;
        while i < n
            invariant
                i <= n,
                guessed@ == Seq::new(i as nat, |k: int| false),
            decreases n - i,
        {
            guessed.push(false);
            assert(guessed@ =~= Seq::new((i + 1) as nat, |k: int| false));
            i = i + 1;
        }
        Hangman { word, guesses: Vec::new(), guessed, wrong: 0 }
    }

    /// Whether every mark is set.
    pub fn is_guess(&self) -> (r: bool)
        ensures
            r == forall|i: int| 0 <= i < self.guessed@.len() ==> self.guessed@[i],
    {
        let mut i: usize = 0;
        while i < self.guessed.len()
            invariant
                i <= self.guessed@.len(),
                forall|k: int| 0 <= k < i ==> self.guessed@[k],
            decreases self.guessed@.len() - i,
        {
            if !self.guessed[i] {
                return false;
            }
            i = i + 1;
        }
        true
    }

    /// Guesses letter `c` (see `after_guess`).
    pub fn guess(&mut self, c: char)
        requires
            !old(self).guesses@.contains(c) && !old(self).word@.contains(c) ==> old(self).wrong < usize::MAX,
        ensures
            final(self)@ == after_guess(old(self)@, c),
    {
        let mut k: usize = 0;
        while k < self.guesses.len()
            invariant
                k <= self.guesses@.len(),
                forall|j: int| 0 <= j < k ==> self.guesses@[j] != c,
            decreases self.guesses@.len() - k,
        {
            if self.guesses[k] == c {
                assert(self.guesses@.contains(c));
                return;
            }
            k = k + 1;
        }
        assert(!self.guesses@.contains(c));
        let letters = chars_of(&self.word);
        let mut found = false;
        let mut k: usize = 0;
        while k < letters.len()
            invariant
                letters@ == self.word@,
                *self == *old(self),
                !self.guesses@.contains(c),
                k <= letters@.len(),
                found == exists|j: int| 0 <= j < k && letters@[j] == c,
            decreases letters@.len() - k,
        {
            if letters[k] == c {
                found = true;
            }
            k = k + 1;
        }
        assert(found == self.word@.contains(c));
        if !found {
            self.wrong = self.wrong + 1;
        }
        let ghost g0 = self.guessed@;
        let ghost w = self.wrong;
        assert(w == old(self).wrong + if old(self).word@.contains(c) { 0int } else { 1int });
        let mut i: usize = 0;
        while i < letters.len() && i < self.guessed.len()
            invariant
                letters@ == self.word@,
                self.word == old(self).word,
                self.guesses == old(self).guesses,
                !self.guesses@.contains(c),
                self.wrong == w,
                w == old(self).wrong + if old(self).word@.contains(c) { 0int } else { 1int },
                g0 == old(self).guessed@,
                self.guessed@.len() == g0.len(),
                i <= g0.len(),
                forall|j: int| 0 <= j < i ==> self.guessed@[j] == marked(letters@, g0, c)[j],
                forall|j: int| i <= j < g0.len() ==> self.guessed@[j] == g0[j],
            decreases g0.len() - i,
        {
            if !self.guessed[i] && letters[i] == c {
                self.guessed.set(i, true);
            }
            i = i + 1;
        }
        assert(self.guessed@ =~= marked(self.word@, g0, c));
        self.guesses.push(c);
    }

    /// Guesses each letter of `letters` in turn.
    pub fn play(&mut self, letters: &Vec<char>)
        requires
            after_guesses(old(self)@, letters@).3 <= usize::MAX,
        ensures
            final(self)@ == after_guesses(old(self)@, letters@),
    {
        let mut i: usize = 0;
        while i < letters.len()
            invariant
                i <= letters@.len(),
                self@ == after_guesses(old(self)@, letters@.take(i as int)),
                after_guesses(old(self)@, letters@).3 <= usize::MAX,
            decreases letters@.len() - i,
        {
            assert(letters@.take(i + 1).drop_last() =~= letters@.take(i as int));
            proof {
                lemma_wrong_grows(old(self)@, letters@, i + 1);
            }
            self.guess(letters[i]);
            i = i + 1;
        }
        assert(letters@.take(i as int) =~= letters@);
    }

    /// The drawing for the wrong guesses so far.
    pub fn print_hangman(&self) -> (h: [[char; 7]; 5])
        ensures
            forall|r: int, c: int| 0 <= r < 5 && 0 <= c < 7 ==> #[trigger] h[r][c] == drawing(self.wrong as nat, r, c),
    {
        let g = self.wrong;
        let mut r0 = [' '; 7];
        let mut r1 = [' '; 7];
        let mut r2 = [' '; 7];
        let mut r3 = [' '; 7];
        let mut r4 = [' '; 7];
        if g > 0 {
            r4[0] = '/';
            r4[2] = '\\';
        }
        if g > 1 {
            r3[1] = '|';
            r2[1] = '|';
        }
        if g > 2 {
            r1[1] = '/';
        }
        if g > 3 {
            r0[2] = '-';
            r0[3] = '-';
            r0[4] = '-';
        }
        if g > 4 {
            r0[5] = '|';
        }
        if g > 5 {
            r1[5] = 'o';
        }
        if g > 6 {
            r2[4] = '/';
            r2[5] = '|';
            r2[6] = '\\';
        }
        if g > 7 {
            r3[4] = '/';
            r3[6] = '\\';
        }
        if g > 8 {
            r1[5] = 'x';
        }
        let h = [r0, r1, r2, r3, r4];
        assert forall|r: int, c: int| 0 <= r < 5 && 0 <= c < 7 implies #[trigger] h[r][c] == drawing(g as nat, r, c) by {
            assert(h[0] == r0 && h[1] == r1 && h[2] == r2 && h[3] == r3 && h[4] == r4);
        }
        h
    }
}

} // verus!
