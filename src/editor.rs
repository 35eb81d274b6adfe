//! The line editor: a buffer edited by key events, with completion that
//! cycles through candidates on repeated Tab presses.
use vstd::prelude::*;
use crate::text::texts;

verus! {

/// One key event read from the terminal.
#[derive(Clone, Copy, Debug, PartialEq, Eq)]
pub enum KeyEvent {
    /// A typed character; `'\t'` is the completion key and `'\n'` submits.
    Char(char),
    Enter,
    Backspace,
    Interrupt,
    Other,
}

/// What the terminal must show, or what the caller must do, after a key.
#[derive(Debug, PartialEq, Eq)]
pub enum EditAction {
    Nothing,
    /// Echo the typed character.
    Echo(char),
    /// Erase the last character shown (back, space, back).
    EraseLast,
    /// Erase `erase` characters of the old line and show `text` instead.
    Redraw { erase: usize, text: String },
    /// The line is finished.
    Submit(String),
    /// The session ends: release the terminal and exit.
    Terminate,
    /// Completion was asked for: compute the candidates of the buffer and
    /// hand them to `supply_candidates`.
    NeedCandidates,
}

/// The editor's abstract state.
pub struct EditorModel {
    pub buffer: Seq<char>,
    pub candidates: Seq<Seq<char>>,
    pub cursor: int,
}

/// The line being edited and the completion state.
pub struct LineEditor {
    buffer: String,
    candidates: Vec<String>,
    cursor: usize,
}

/// The state after one Tab press with candidates present: the buffer shows
/// the candidate under the cursor, and the cursor moves on, wrapping.
pub open spec fn tab_step(m: EditorModel) -> EditorModel {
    if m.candidates.len() == 0 {
        m
    } else {
        EditorModel {
            buffer: m.candidates[m.cursor],
            candidates: m.candidates,
            cursor: (m.cursor + 1) % (m.candidates.len() as int),
        }
    }
}

/// `tab_step` applied `k` times.
pub open spec fn tab_steps(m: EditorModel, k: nat) -> EditorModel
    decreases k,
{
    if k == 0 {
        m
    } else {
        tab_step(tab_steps(m, (k - 1) as nat))
    }
}

/// The buffer kept, completion state cleared.
pub open spec fn cleared(buffer: Seq<char>) -> EditorModel {
    EditorModel { buffer, candidates: Seq::empty(), cursor: 0 }
}

/// A completion state is consistent when its cursor is a valid index, or 0
/// when there are no candidates.
pub open spec fn model_wf(m: EditorModel) -> bool {
    if m.candidates.len() == 0 {
        m.cursor == 0
    } else {
        0 <= m.cursor < m.candidates.len()
    }
}

/// Whether `a` asks to replace `erase` shown characters with `text`.
pub open spec fn is_redraw(a: EditAction, erase: nat, text: Seq<char>) -> bool {
    match a {
        EditAction::Redraw { erase: e, text: t } => e == erase && t@ == text,
        _ => false,
    }
}

/// Whether `a` submits the line `line`.
pub open spec fn is_submit(a: EditAction, line: Seq<char>) -> bool {
    match a {
        EditAction::Submit(t) => t@ == line,
        _ => false,
    }
}

/// Repeated Tab presses with no edit in between walk the candidates in order,
/// wrapping: after `k` presses the cursor is `k` places on (modulo the number
/// of candidates) and the buffer shows the candidate before it; the
/// candidates themselves never change.
pub proof fn lemma_tab_cycles(m: EditorModel, k: nat)
    requires
        model_wf(m),
        m.candidates.len() > 0,
    ensures
        tab_steps(m, k).candidates == m.candidates,
        tab_steps(m, k).cursor == (m.cursor + k) % (m.candidates.len() as int),
        k > 0 ==> tab_steps(m, k).buffer == m.candidates[(m.cursor + k - 1) % (m.candidates.len() as int)],
    decreases k,
{
    let n = m.candidates.len() as int;
    if k == 0 {
        vstd::arithmetic::div_mod::lemma_small_mod(m.cursor as nat, n as nat);
    } else {
        lemma_tab_cycles(m, (k - 1) as nat);
        let prev = tab_steps(m, (k - 1) as nat);
        vstd::arithmetic::div_mod::lemma_add_mod_noop_right(1, m.cursor + k - 1, n);
        vstd::arithmetic::div_mod::lemma_mod_bound(m.cursor + k - 1, n);
        assert(tab_steps(m, k) == tab_step(prev));
    }
}

/// The first Tab press shows the first candidate; press `k + 1` shows
/// candidate `k`; after exactly as many further presses as there are
/// candidates the first candidate is shown again, with the cursor where it
/// was.
pub proof fn lemma_tab_returns_to_first(buffer: Seq<char>, cands: Seq<Seq<char>>)
    requires
        cands.len() > 0,
    ensures
        tab_step(EditorModel { buffer, candidates: cands, cursor: 0 }).buffer == cands[0],
        forall|k: nat| k < cands.len() ==>
            (#[trigger] tab_steps(tab_step(EditorModel { buffer, candidates: cands, cursor: 0 }), k)).buffer
                == cands[k as int],
        tab_steps(tab_step(EditorModel { buffer, candidates: cands, cursor: 0 }), cands.len()).buffer == cands[0],
        tab_steps(tab_step(EditorModel { buffer, candidates: cands, cursor: 0 }), cands.len()).cursor
            == tab_step(EditorModel { buffer, candidates: cands, cursor: 0 }).cursor,
{
    let n = cands.len() as int;
    let first = tab_step(EditorModel { buffer, candidates: cands, cursor: 0 });
    vstd::arithmetic::div_mod::lemma_mod_bound(1, n);
    assert forall|k: nat| k < cands.len() implies
        (#[trigger] tab_steps(first, k)).buffer == cands[k as int] by {
        lemma_tab_cycles(first, k);
        if k > 0 {
            if n == 1 {
            } else {
                vstd::arithmetic::div_mod::lemma_small_mod(1, n as nat);
                vstd::arithmetic::div_mod::lemma_small_mod((k - 1) as nat, n as nat);
                vstd::arithmetic::div_mod::lemma_small_mod(k as nat, n as nat);
            }
        }
    }
    lemma_tab_cycles(first, cands.len());
    vstd::arithmetic::div_mod::lemma_mod_add_multiples_vanish(first.cursor, n);
    vstd::arithmetic::div_mod::lemma_mod_add_multiples_vanish(first.cursor - 1, n);
    if n == 1 {
        vstd::arithmetic::div_mod::lemma_mod_self_0(1);
    } else {
        vstd::arithmetic::div_mod::lemma_small_mod(1, n as nat);
        vstd::arithmetic::div_mod::lemma_small_mod(0, n as nat);
    }
}

impl View for LineEditor {
    type V = EditorModel;

    closed spec fn view(&self) -> EditorModel {
        EditorModel {
            buffer: self.buffer@,
            candidates: texts(self.candidates@),
            cursor: self.cursor as int,
        }
    }
}

impl LineEditor {
    pub open spec fn wf(&self) -> bool {
        model_wf(self@)
    }

    /// An editor with an empty buffer and no candidates.
    pub fn new() -> (r: LineEditor)
        ensures
            r.wf(),
            r@ == cleared(Seq::empty()),
    {
        let r = LineEditor { buffer: String::new(), candidates: Vec::new(), cursor: 0 };
        assert(r@.candidates =~= Seq::<Seq<char>>::empty());
        r
    }

    /// The text typed so far.
    pub fn buffer(&self) -> (r: &String)
        ensures
            r@ == self@.buffer,
    {
        &self.buffer
    }

    /// Whether completion candidates are held, so that a Tab press cycles
    /// through them instead of asking for new ones.
    pub fn has_candidates(&self) -> (r: bool)
        ensures
            r == (self@.candidates.len() > 0),
    {
        self.candidates.len() > 0
    }

    fn clear_completion(&mut self)
        ensures
            final(self)@ == cleared(old(self)@.buffer),
    {
        self.candidates = Vec::new();
        self.cursor = 0;
        assert(self@.candidates =~= Seq::<Seq<char>>::empty());
    }

    /// Shows the candidate under the cursor and moves the cursor on.
    fn cycle(&mut self) -> (r: EditAction)
        requires
            old(self).wf(),
            old(self)@.candidates.len() > 0,
        ensures
            final(self).wf(),
            final(self)@ == tab_step(old(self)@),
            is_redraw(r, old(self)@.buffer.len(), final(self)@.buffer),
    {
        let erase = self.buffer.as_str().unicode_len();
        let n = self.candidates.len();
        proof {
            assert(texts(self.candidates@).len() == n);
            if self.cursor + 1 == n {
                vstd::arithmetic::div_mod::lemma_mod_self_0(n as int);
            } else {
                vstd::arithmetic::div_mod::lemma_small_mod((self.cursor + 1) as nat, n as nat);
            }
        }
        self.buffer = self.candidates[self.cursor].clone();
        self.cursor = if self.cursor + 1 == n {
            0
        } else {
            self.cursor + 1
        };
        EditAction::Redraw { erase, text: self.buffer.clone() }
    }

    /// Reacts to one key event.
    pub fn handle_key(&mut self, key: KeyEvent) -> (r: EditAction)
        requires
            old(self).wf(),
        ensures
            final(self).wf(),
            match key {
                KeyEvent::Char('\t') => if old(self)@.candidates.len() == 0 {
                    r == EditAction::NeedCandidates && final(self)@ == old(self)@
                } else {
                    final(self)@ == tab_step(old(self)@)
                        && is_redraw(r, old(self)@.buffer.len(), final(self)@.buffer)
                },
                KeyEvent::Char('\n') | KeyEvent::Enter => is_submit(r, old(self)@.buffer)
                    && final(self)@ == cleared(Seq::empty()),
                KeyEvent::Char(c) => r == EditAction::Echo(c)
                    && final(self)@ == cleared(old(self)@.buffer.push(c)),
                KeyEvent::Backspace => if old(self)@.buffer.len() == 0 {
                    r == EditAction::Nothing && final(self)@ == cleared(old(self)@.buffer)
                } else {
                    r == EditAction::EraseLast && final(self)@ == cleared(old(self)@.buffer.drop_last())
                },
                KeyEvent::Interrupt => r == EditAction::Terminate && final(self)@ == old(self)@,
                KeyEvent::Other => r == EditAction::Nothing && final(self)@ == cleared(old(self)@.buffer),
            },
    {
        match key {
            KeyEvent::Char('\t') => {
                if self.candidates.len() == 0 {
                    EditAction::NeedCandidates
                } else {
                    self.cycle()
                }
            },
            KeyEvent::Char('\n') | KeyEvent::Enter => {
                self.clear_completion();
                let line = self.buffer.clone();
                self.buffer = String::new();
                EditAction::Submit(line)
            },
            KeyEvent::Char(c) => {
                self.clear_completion();
                self.buffer.push(c);
                EditAction::Echo(c)
            },
            KeyEvent::Backspace => {
                self.clear_completion();
                match self.buffer.pop() {
                    Some(_) => EditAction::EraseLast,
                    None => EditAction::Nothing,
                }
            },
            KeyEvent::Interrupt => EditAction::Terminate,
            KeyEvent::Other => {
                self.clear_completion();
                EditAction::Nothing
            },
        }
    }

    /// Takes the candidates computed for the buffer after a Tab press that
    /// returned `NeedCandidates`, and shows the first one.
    pub fn supply_candidates(&mut self, fresh: Vec<String>) -> (r: EditAction)
        requires
            old(self).wf(),
        ensures
            final(self).wf(),
            final(self)@ == tab_step(EditorModel { buffer: old(self)@.buffer, candidates: texts(fresh@), cursor: 0 }),
            fresh@.len() == 0 ==> r == EditAction::Nothing,
            fresh@.len() > 0 ==> is_redraw(r, old(self)@.buffer.len(), fresh@[0]@),
    {
        self.candidates = fresh;
        self.cursor = 0;
        assert(texts(self.candidates@).len() == self.candidates@.len());
        if self.candidates.len() == 0 {
            EditAction::Nothing
        } else {
            self.cycle()
        }
    }
}

} // verus!
