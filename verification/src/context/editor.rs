//! The inline file editor: cursor movement, typing, joining and splitting
//! lines, saving.
use vstd::prelude::*;
use crate::context::repo::toasted;
use crate::events::{Effect, KeyCode, KeyEvent, Reaction, react, react_with, insert_at, remove_at};
use crate::git::strs_view;
use crate::model::{AppMode, Model, ToastType, scrolled, editor_rows};
use crate::text::{char_count, insert_char_at, remove_char_at, push_str, joined, to_chars, string_of_range};

verus! {

/// The editor.
pub struct EditorContext;

/// The editor's lines as plain values.
pub open spec fn ed(m: Model) -> Seq<Seq<char>> {
    strs_view(m.editor_lines@)
}

/// The length of line `i`, or 0 past the last line.
pub open spec fn len_at(m: Model, i: int) -> nat {
    if 0 <= i < ed(m).len() {
        ed(m)[i].len()
    } else {
        0
    }
}

/// `m` with the cursor on `line`, `col` and the window scrolled to show it.
pub open spec fn at(m: Model, line: usize, col: usize) -> Model {
    Model {
        editor_cursor_line: line,
        editor_cursor_col: col,
        editor_scroll_line: scrolled(line, m.editor_scroll_line, editor_rows()),
        ..m
    }
}

/// The column kept when the cursor moves to a line of length `len`.
pub open spec fn kept_col(col: usize, len: nat) -> usize {
    if col > len {
        len as usize
    } else {
        col
    }
}

/// The cursor keys of the editor, from `m` to `n`.
pub open spec fn editor_moves(m: Model, n: Model, key: KeyEvent) -> bool {
    let ln = m.editor_cursor_line;
    let col = m.editor_cursor_col;
    let count = ed(m).len();
    match key.code {
        KeyCode::Up => if ln > 0 {
            n == at(m, (ln - 1) as usize, kept_col(col, len_at(m, ln - 1)))
        } else {
            n == m
        },
        KeyCode::Down => if ln + 1 < count {
            n == at(m, (ln + 1) as usize, kept_col(col, len_at(m, ln + 1)))
        } else {
            n == m
        },
        KeyCode::Left => if col > 0 {
            n == (Model { editor_cursor_col: (col - 1) as usize, ..m })
        } else if ln > 0 {
            n == at(m, (ln - 1) as usize, len_at(m, ln - 1) as usize)
        } else {
            n == m
        },
        KeyCode::Right => if col < len_at(m, ln as int) {
            n == (Model { editor_cursor_col: (col + 1) as usize, ..m })
        } else if ln + 1 < count {
            n == at(m, (ln + 1) as usize, 0)
        } else {
            n == m
        },
        KeyCode::Home => n == (Model { editor_cursor_col: 0, ..m }),
        KeyCode::End => n == (Model { editor_cursor_col: len_at(m, ln as int) as usize, ..m }),
        _ => true,
    }
}

/// The editing keys of the editor, from `m` to `n`.
pub open spec fn editor_edits(m: Model, n: Model, key: KeyEvent) -> bool {
    let ln = m.editor_cursor_line;
    let col = m.editor_cursor_col;
    let ls = ed(m);
    let count = ls.len();
    match key.code {
        KeyCode::Char(c) => if ln < count {
            ed(n) == ls.update(ln as int, ls[ln as int].insert(insert_at(ls[ln as int].len(), col), c))
                && n == (Model {
                    editor_lines: n.editor_lines,
                    editor_cursor_col: (col + 1) as usize,
                    editor_modified: true,
                    ..m
                })
        } else {
            n == (Model { editor_cursor_col: (col + 1) as usize, editor_modified: true, ..m })
        },
        KeyCode::Tab => if ln < count {
            ed(n) == ls.update(
                ln as int,
                ls[ln as int].take(insert_at(ls[ln as int].len(), col)) + "    "@ + ls[ln as int].skip(
                    insert_at(ls[ln as int].len(), col),
                ),
            ) && n == (Model {
                editor_lines: n.editor_lines,
                editor_cursor_col: (col + 4) as usize,
                editor_modified: true,
                ..m
            })
        } else {
            n == m
        },
        KeyCode::Backspace => if col > 0 {
            if ln < count {
                ed(n) == ls.update(ln as int, ls[ln as int].remove(remove_at(ls[ln as int].len(), col)))
                    && n == (Model {
                        editor_lines: n.editor_lines,
                        editor_cursor_col: (col - 1) as usize,
                        editor_modified: true,
                        ..m
                    })
            } else {
                n == m
            }
        } else if ln > 0 {
            ed(n) == ls.remove(ln as int).update(ln - 1, ls[ln - 1] + ls[ln as int])
                && n == (Model {
                    editor_lines: n.editor_lines,
                    editor_modified: true,
                    ..at(m, (ln - 1) as usize, ls[ln - 1].len() as usize)
                })
        } else {
            n == m
        },
        KeyCode::Delete => if col < len_at(m, ln as int) {
            ed(n) == ls.update(ln as int, ls[ln as int].remove(col as int))
                && n == (Model { editor_lines: n.editor_lines, editor_modified: true, ..m })
        } else if ln + 1 < count {
            ed(n) == ls.remove(ln + 1).update(ln as int, ls[ln as int] + ls[ln + 1])
                && n == (Model { editor_lines: n.editor_lines, editor_modified: true, ..m })
        } else {
            n == m
        },
        KeyCode::Enter => {
            let k = insert_at(ls[ln as int].len(), col);
            ed(n) == ls.update(ln as int, ls[ln as int].take(k)).insert(ln + 1, ls[ln as int].skip(k))
                && n == (Model { editor_lines: n.editor_lines, editor_modified: true, ..at(m, (ln + 1) as usize, 0) })
        },
        _ => true,
    }
}

/// What the editor does with a key, from `m` to `n`.
pub open spec fn editor_step(m: Model, n: Model, key: KeyEvent, r: Reaction) -> bool {
    if key.ctrl && key.code == KeyCode::Char('s') {
        &&& r.handled
        &&& n == m
        &&& if m.repo is Some {
            r.effect matches Effect::SaveEditor { path, content } && path@ == m.editor_path@
                && content@ == joined(ed(m))
        } else {
            r.effect is Nothing
        }
    } else if key.ctrl && (key.code == KeyCode::Char('q') || key.code == KeyCode::Char('x')) {
        &&& r.handled
        &&& r.effect is Nothing
        &&& if m.editor_modified {
            toasted(n, "Unsaved changes — Ctrl+S to save, or Esc to discard and exit"@, ToastType::Warning)
                && n == (Model { toast: n.toast, ..m })
        } else {
            n == (Model { mode: AppMode::RepoView, active_frame: 1, ..m })
        }
    } else {
        match key.code {
            KeyCode::Esc => r.handled && r.effect is Nothing
                && n == (Model { mode: AppMode::RepoView, active_frame: 1, editor_modified: false, ..m }),
            KeyCode::Up | KeyCode::Down | KeyCode::Left | KeyCode::Right | KeyCode::Home | KeyCode::End =>
                !r.handled && r.effect is Nothing && editor_moves(m, n, key),
            KeyCode::Char(_) => !r.handled && r.effect is Nothing && if key.ctrl {
                n == m
            } else {
                editor_edits(m, n, key)
            },
            KeyCode::Tab | KeyCode::Backspace | KeyCode::Delete | KeyCode::Enter =>
                !r.handled && r.effect is Nothing && editor_edits(m, n, key),
            KeyCode::F(k) => !r.handled && r.effect is Nothing && if k == 1 {
                n == (Model { mode: AppMode::RepoView, active_frame: 1, ..m })
            } else {
                n == m
            },
            _ => !r.handled && r.effect is Nothing && n == m,
        }
    }
}

/// The editor can take the key without panicking: typing leaves room for
/// the column to grow, Backspace at a column past an empty line or at the
/// start of a line past the last has nothing to remove, Enter needs a line
/// under the cursor.
pub open spec fn editor_key_ok(m: Model, key: KeyEvent) -> bool {
    let ln = m.editor_cursor_line;
    let col = m.editor_cursor_col;
    let count = ed(m).len();
    match key.code {
        KeyCode::Char(_) => !key.ctrl ==> col < usize::MAX,
        KeyCode::Tab => col + 4 <= usize::MAX,
        KeyCode::Backspace => (col > 0 && ln < count ==> ed(m)[ln as int].len() > 0) && (col == 0 && ln > 0
            ==> ln < count),
        KeyCode::Enter => ln < count,
        _ => true,
    }
}

/// The length in characters of line `i`, or 0 past the last line.
fn line_len(model: &Model, i: usize) -> (r: usize)
    ensures
        r == len_at(*model, i as int),
{
    if i < model.editor_lines.len() {
        proof { assert(ed(*model)[i as int] == model.editor_lines@[i as int]@); }
        char_count(model.editor_lines[i].as_str())
    } else {
        0
    }
}

impl EditorContext {
    /// The name of the view.
    pub fn view_name(&self) -> (r: &'static str)
        ensures
            r@ == "editor"@,
    {
        "editor"
    }

    /// What the editor does with a key, as `editor_step` says: Ctrl+S saves,
    /// Ctrl+Q/Ctrl+X leave unless there are unsaved changes, Esc leaves and
    /// drops them; the arrows, Home and End move the cursor; characters and
    /// Tab are typed; Backspace and Delete remove a character or join lines;
    /// Enter splits the line; F1 goes back to the file tree.
    pub fn handle_event(&self, key: KeyEvent, model: &mut Model) -> (r: Reaction)
        requires
            editor_key_ok(*old(model), key),
        ensures
            editor_step(*old(model), *final(model), key, r),
    {
        if key.ctrl && key.code == KeyCode::Char('s') {
            if model.repo.is_some() {
                let path = model.editor_path.clone();
                let content = model.editor_text();
                return react_with(true, Effect::SaveEditor { path, content });
            }
            return react(true);
        }
        if key.ctrl && (key.code == KeyCode::Char('q') || key.code == KeyCode::Char('x')) {
            if model.editor_modified {
                model.show_toast(
                    String::from_str("Unsaved changes — Ctrl+S to save, or Esc to discard and exit"),
                    ToastType::Warning,
                );
            } else {
                model.mode = AppMode::RepoView;
                model.active_frame = 1;
            }
            return react(true);
        }
        match key.code {
            KeyCode::Esc => {
                model.mode = AppMode::RepoView;
                model.active_frame = 1;
                model.editor_modified = false;
                react(true)
            },
            KeyCode::Up | KeyCode::Down | KeyCode::Left | KeyCode::Right | KeyCode::Home | KeyCode::End => {
                self.move_cursor(key, model);
                react(false)
            },
            KeyCode::Char(c) => {
                if !key.ctrl {
                    self.type_char(c, model);
                }
                react(false)
            },
            KeyCode::Tab => {
                self.tab(model);
                react(false)
            },
            KeyCode::Backspace => {
                self.backspace(model);
                react(false)
            },
            KeyCode::Delete => {
                self.delete(model);
                react(false)
            },
            KeyCode::Enter => {
                self.split_line(model);
                react(false)
            },
            KeyCode::F(k) => {
                if k == 1 {
                    model.mode = AppMode::RepoView;
                    model.active_frame = 1;
                }
                react(false)
            },
            _ => react(false),
        }
    }

    fn move_cursor(&self, key: KeyEvent, model: &mut Model)
        ensures
            editor_moves(*old(model), *final(model), key),
    {
        let ln = model.editor_cursor_line;
        let count = model.editor_lines.len();
        match key.code {
            KeyCode::Up => {
                if ln > 0 {
                    model.editor_cursor_line = ln - 1;
                    let len = line_len(model, ln - 1);
                    if model.editor_cursor_col > len {
                        model.editor_cursor_col = len;
                    }
                    model.editor_adjust_scroll();
                }
            },
            KeyCode::Down => {
                if count > 0 && ln < count - 1 {
                    model.editor_cursor_line = ln + 1;
                    let len = line_len(model, ln + 1);
                    if model.editor_cursor_col > len {
                        model.editor_cursor_col = len;
                    }
                    model.editor_adjust_scroll();
                }
            },
            KeyCode::Left => {
                if model.editor_cursor_col > 0 {
                    model.editor_cursor_col = model.editor_cursor_col - 1;
                } else if ln > 0 {
                    model.editor_cursor_line = ln - 1;
                    model.editor_cursor_col = line_len(model, ln - 1);
                    model.editor_adjust_scroll();
                }
            },
            KeyCode::Right => {
                let len = line_len(model, ln);
                if model.editor_cursor_col < len {
                    model.editor_cursor_col = model.editor_cursor_col + 1;
                } else if count > 0 && ln < count - 1 {
                    model.editor_cursor_line = ln + 1;
                    model.editor_cursor_col = 0;
                    model.editor_adjust_scroll();
                }
            },
            KeyCode::Home => {
                model.editor_cursor_col = 0;
            },
            KeyCode::End => {
                model.editor_cursor_col = line_len(model, ln);
            },
            _ => {},
        }
    }

    fn type_char(&self, c: char, model: &mut Model)
        requires
            old(model).editor_cursor_col < usize::MAX,
        ensures
            editor_edits(*old(model), *final(model), KeyEvent { code: KeyCode::Char(c), ctrl: false }),
    {
        let ln = model.editor_cursor_line;
        let col = model.editor_cursor_col;
        if ln < model.editor_lines.len() {
            let mut line = model.editor_lines[ln].clone();
            insert_char_at(&mut line, col, c);
            model.editor_lines[ln] = line;
            proof { assert(ed(*model) =~= ed(*old(model)).update(ln as int, line@)); }
        }
        model.editor_cursor_col = col + 1;
        model.editor_modified = true;
    }

    fn tab(&self, model: &mut Model)
        requires
            old(model).editor_cursor_col + 4 <= usize::MAX,
        ensures
            editor_edits(*old(model), *final(model), KeyEvent { code: KeyCode::Tab, ctrl: false }),
    {
        let ln = model.editor_cursor_line;
        let col = model.editor_cursor_col;
        if ln < model.editor_lines.len() {
            let cs = to_chars(model.editor_lines[ln].as_str());
            let k = if col <= cs.len() {
                col
            } else {
                cs.len()
            };
            let mut line = string_of_range(cs.as_slice(), 0, k);
            push_str(&mut line, "    ");
            let tail = string_of_range(cs.as_slice(), k, cs.len());
            push_str(&mut line, tail.as_str());
            proof {
                reveal_strlit("    ");
                assert(cs@.subrange(0, k as int) =~= cs@.take(k as int));
                assert(cs@.subrange(k as int, cs@.len() as int) =~= cs@.skip(k as int));
            }
            model.editor_lines[ln] = line;
            proof { assert(ed(*model) =~= ed(*old(model)).update(ln as int, line@)); }
            model.editor_cursor_col = col + 4;
            model.editor_modified = true;
        }
    }

    fn backspace(&self, model: &mut Model)
        requires
            editor_key_ok(*old(model), KeyEvent { code: KeyCode::Backspace, ctrl: false }),
        ensures
            editor_edits(*old(model), *final(model), KeyEvent { code: KeyCode::Backspace, ctrl: false }),
    {
        let ln = model.editor_cursor_line;
        let col = model.editor_cursor_col;
        if col > 0 {
            if ln < model.editor_lines.len() {
                let mut line = model.editor_lines[ln].clone();
                let len = char_count(line.as_str());
                let at = if col - 1 < len {
                    col - 1
                } else {
                    0
                };
                remove_char_at(&mut line, at);
                model.editor_lines[ln] = line;
                proof { assert(ed(*model) =~= ed(*old(model)).update(ln as int, line@)); }
                model.editor_cursor_col = col - 1;
                model.editor_modified = true;
            }
        } else if ln > 0 {
            let ghost ls = ed(*model);
            let current = model.editor_lines.remove(ln);
            model.editor_cursor_line = ln - 1;
            let mut prev = model.editor_lines[ln - 1].clone();
            let prev_len = char_count(prev.as_str());
            push_str(&mut prev, current.as_str());
            model.editor_lines[ln - 1] = prev;
            proof {
                assert(ed(*model) =~= ls.remove(ln as int).update(ln - 1, ls[ln - 1] + ls[ln as int]));
            }
            model.editor_cursor_col = prev_len;
            model.editor_modified = true;
            model.editor_adjust_scroll();
        }
    }

    fn delete(&self, model: &mut Model)
        ensures
            editor_edits(*old(model), *final(model), KeyEvent { code: KeyCode::Delete, ctrl: false }),
    {
        let ln = model.editor_cursor_line;
        let col = model.editor_cursor_col;
        let len = line_len(model, ln);
        if col < len {
            let mut line = model.editor_lines[ln].clone();
            remove_char_at(&mut line, col);
            model.editor_lines[ln] = line;
            proof { assert(ed(*model) =~= ed(*old(model)).update(ln as int, line@)); }
            model.editor_modified = true;
        } else if model.editor_lines.len() > 0 && ln < model.editor_lines.len() - 1 {
            let ghost ls = ed(*model);
            let next = model.editor_lines.remove(ln + 1);
            let mut line = model.editor_lines[ln].clone();
            push_str(&mut line, next.as_str());
            model.editor_lines[ln] = line;
            proof {
                assert(ed(*model) =~= ls.remove(ln + 1).update(ln as int, ls[ln as int] + ls[ln + 1]));
            }
            model.editor_modified = true;
        }
    }

    fn split_line(&self, model: &mut Model)
        requires
            old(model).editor_cursor_line < old(model).editor_lines@.len(),
        ensures
            editor_edits(*old(model), *final(model), KeyEvent { code: KeyCode::Enter, ctrl: false }),
    {
        let ln = model.editor_cursor_line;
        let col = model.editor_cursor_col;
        let count = model.editor_lines.len();
        assert(ln + 1 <= count);
        let ghost ls = ed(*model);
        let cs = to_chars(model.editor_lines[ln].as_str());
        let k = if col <= cs.len() {
            col
        } else {
            cs.len()
        };
        let head = string_of_range(cs.as_slice(), 0, k);
        let rest = string_of_range(cs.as_slice(), k, cs.len());
        proof {
            assert(cs@.subrange(0, k as int) =~= cs@.take(k as int));
            assert(cs@.subrange(k as int, cs@.len() as int) =~= cs@.skip(k as int));
        }
        model.editor_lines[ln] = head;
        model.editor_cursor_line = ln + 1;
        model.editor_lines.insert(ln + 1, rest);
        proof {
            assert(ed(*model) =~= ls.update(ln as int, ls[ln as int].take(k as int)).insert(ln + 1, ls[ln as int].skip(k as int)));
        }
        model.editor_cursor_col = 0;
        model.editor_modified = true;
        model.editor_adjust_scroll();
    }

    /// Shows how saving ended: the file is no longer modified and a toast
    /// names it, and the status is read again; or the error is shown.
    /// Nothing when no repository is open.
    pub fn finish_editor_save(&self, model: &mut Model, outcome: Result<(), String>) -> (r: Effect)
        ensures
            old(model).repo is None ==> *final(model) == *old(model) && r is Nothing,
            old(model).repo is Some ==> match outcome {
                Ok(()) => r is RefreshStatus && toasted(*final(model), "✅ Saved: "@ + old(model).editor_path@, ToastType::Success)
                    && *final(model) == (Model { editor_modified: false, toast: final(model).toast, ..*old(model) }),
                Err(e) => r is Nothing && toasted(*final(model), "❌ Save failed: "@ + e@, ToastType::Error)
                    && *final(model) == (Model { toast: final(model).toast, ..*old(model) }),
            },
    {
        if model.repo.is_none() {
            return Effect::Nothing;
        }
        match outcome {
            Ok(()) => {
                model.editor_modified = false;
                let mut msg = String::from_str("✅ Saved: ");
                push_str(&mut msg, model.editor_path.as_str());
                proof { reveal_strlit("✅ Saved: "); }
                model.show_toast(msg, ToastType::Success);
                Effect::RefreshStatus
            },
            Err(e) => {
                let mut msg = String::from_str("❌ Save failed: ");
                push_str(&mut msg, e.as_str());
                proof { reveal_strlit("❌ Save failed: "); }
                model.show_toast(msg, ToastType::Error);
                Effect::Nothing
            },
        }
    }
}


/// Enter splits the line at the cursor and Backspace at the start of the
/// new line joins it back: the lines are as before and the cursor is back
/// where it was (when it was within its line).
pub proof fn lemma_split_then_join(m: Model, n1: Model, n2: Model)
    requires
        m.editor_cursor_line < ed(m).len(),
        m.editor_cursor_col <= ed(m)[m.editor_cursor_line as int].len(),
        m.editor_cursor_line + 1 <= usize::MAX,
        editor_edits(m, n1, KeyEvent { code: KeyCode::Enter, ctrl: false }),
        editor_edits(n1, n2, KeyEvent { code: KeyCode::Backspace, ctrl: false }),
    ensures
        ed(n2) == ed(m),
        n2.editor_cursor_line == m.editor_cursor_line,
        n2.editor_cursor_col == m.editor_cursor_col,
{
    let ls = ed(m);
    let ln = m.editor_cursor_line as int;
    let k = m.editor_cursor_col as int;
    let line = ls[ln];
    let mid = ls.update(ln, line.take(k)).insert(ln + 1, line.skip(k));
    assert(ed(n1) == mid);
    assert(mid[ln] == line.take(k));
    assert(mid[ln + 1] == line.skip(k));
    assert(line.take(k) + line.skip(k) =~= line);
    assert(mid.remove(ln + 1).update(ln, mid[ln] + mid[ln + 1]) =~= ls);
}

/// Typing a character and then Backspace leaves the lines as they were and
/// the cursor where it was (when it was within its line).
pub proof fn lemma_type_then_erase(m: Model, n1: Model, n2: Model, c: char)
    requires
        m.editor_cursor_line < ed(m).len(),
        m.editor_cursor_col <= ed(m)[m.editor_cursor_line as int].len(),
        m.editor_cursor_col < usize::MAX,
        editor_edits(m, n1, KeyEvent { code: KeyCode::Char(c), ctrl: false }),
        editor_edits(n1, n2, KeyEvent { code: KeyCode::Backspace, ctrl: false }),
    ensures
        ed(n2) == ed(m),
        n2.editor_cursor_line == m.editor_cursor_line,
        n2.editor_cursor_col == m.editor_cursor_col,
{
    let ls = ed(m);
    let ln = m.editor_cursor_line as int;
    let k = m.editor_cursor_col as int;
    let line = ls[ln];
    assert(insert_at(line.len(), m.editor_cursor_col) == k);
    assert(n1.editor_cursor_line == m.editor_cursor_line);
    assert(n1.editor_cursor_col == k + 1);
    assert(ed(n1) == ls.update(ln, line.insert(k, c)));
    assert(ed(n1)[ln] == line.insert(k, c));
    assert(remove_at(ed(n1)[ln].len(), n1.editor_cursor_col) == k);
    assert(line.insert(k, c).remove(k) =~= line);
    assert(ed(n1).update(ln, line.insert(k, c).remove(k)) =~= ls);
}

} // verus!
