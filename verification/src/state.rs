//! Session state: the three named candidate lists, the active view, the
//! search settings, the query buffer, and the raw history they were built
//! from.

use vstd::prelude::*;
use vstd::string::StrSliceExecFns;
use vstd::string::StringExecFns;
use vstd::view::View as _;
use crate::hstr::{str_eq, Shell};
use crate::search::{clone_commands, filter_commands, filtered, lemma_filter_push};
use crate::sort::{contains_item, ranked, sort, unique, uniqued};
use crate::ui::Direction;

verus! {

/// The three named groupings of the history.
#[derive(Clone, Copy, Debug, PartialEq, Eq, Structural)]
pub enum View {
    Sorted,
    Favorites,
    All,
}

/// The three search strategies.
#[derive(Clone, Copy, Debug, PartialEq, Eq, Structural)]
pub enum SearchMode {
    Exact,
    Regex,
    Fuzzy,
}

/// The view after the current one in the toggle cycle.
pub open spec fn next_view(v: View) -> View {
    match v {
        View::Sorted => View::Favorites,
        View::Favorites => View::All,
        View::All => View::Sorted,
    }
}

/// The search mode after the current one in the toggle cycle.
pub open spec fn next_search_mode(m: SearchMode) -> SearchMode {
    match m {
        SearchMode::Exact => SearchMode::Regex,
        SearchMode::Regex => SearchMode::Fuzzy,
        SearchMode::Fuzzy => SearchMode::Exact,
    }
}

/// The text with `ch` inserted at character position `k`.
pub open spec fn insert_at(s: Seq<char>, k: int, ch: char) -> Seq<char> {
    s.subrange(0, k).push(ch) + s.subrange(k, s.len() as int)
}

/// The text with the character at position `k` removed.
pub open spec fn remove_at(s: Seq<char>, k: int) -> Seq<char> {
    s.subrange(0, k) + s.subrange(k + 1, s.len() as int)
}

/// Inserting a character at position `k` and then removing the character at
/// position `k` again restores the text exactly: insertion and backspace
/// after advancing the cursor past the new character are inverses.
pub proof fn lemma_insert_remove_inverse(s: Seq<char>, k: int, ch: char)
    requires
        0 <= k <= s.len(),
    ensures
        remove_at(insert_at(s, k, ch), k) == s,
{
    let t = insert_at(s, k, ch);
    assert(t.len() == s.len() + 1);
    assert(remove_at(t, k) =~= s);
}

/// The query buffer: the text being searched for and a cursor position
/// counted in characters.
pub struct Query {
    pub text: String,
    pub cursor: usize,
}

impl Query {
    pub fn new(text: &str) -> (q: Query)
        ensures
            q.text@ == text@,
            q.cursor == 0,
    {
        Query { text: text.to_owned(), cursor: 0 }
    }

    /// Insert a character at the cursor; the cursor itself does not move
    /// (advancing it is the caller's separate step).
    pub fn insert_char(&mut self, ch: char)
        requires
            old(self).cursor <= old(self).text@.len(),
        ensures
            final(self).text@ == insert_at(old(self).text@, old(self).cursor as int, ch),
            final(self).cursor == old(self).cursor,
    {
        let n = self.text.as_str().unicode_len();
        let prefix = self.text.as_str().substring_char(0, self.cursor);
        let mut out = prefix.to_owned();
        push_char(&mut out, ch);
        let suffix = self.text.as_str().substring_char(self.cursor, n);
        out.append(suffix);
        proof {
            assert(out@ =~= insert_at(self.text@, self.cursor as int, ch));
        }
        self.text = out;
    }

    /// Remove the character just before the cursor (backspace); a no-op when
    /// the cursor is at the start.  The cursor itself does not move.
    pub fn remove_char(&mut self)
        requires
            old(self).cursor <= old(self).text@.len(),
        ensures
            final(self).cursor == old(self).cursor,
            old(self).cursor == 0 ==> final(self).text == old(self).text,
            old(self).cursor > 0 ==> final(self).text@ == remove_at(
                old(self).text@,
                old(self).cursor - 1,
            ),
    {
        if self.cursor == 0 {
            return ;
        }
        let n = self.text.as_str().unicode_len();
        let prefix = self.text.as_str().substring_char(0, self.cursor - 1);
        let mut out = prefix.to_owned();
        let suffix = self.text.as_str().substring_char(self.cursor, n);
        out.append(suffix);
        proof {
            assert(out@ =~= remove_at(self.text@, self.cursor - 1));
        }
        self.text = out;
    }

    /// Move the cursor one character, clamping at the ends of the text.
    pub fn move_cursor(&mut self, direction: Direction)
        ensures
            final(self).text == old(self).text,
            direction == Direction::Forward ==> final(self).cursor == if old(self).cursor
                < old(self).text@.len() {
                old(self).cursor + 1
            } else {
                old(self).cursor as int
            },
            direction == Direction::Backward ==> final(self).cursor == if old(self).cursor > 0 {
                old(self).cursor - 1
            } else {
                0
            },
    {
        match direction {
            Direction::Forward => {
                let n = self.text.as_str().unicode_len();
                if self.cursor < n {
                    self.cursor = self.cursor + 1;
                }
            },
            Direction::Backward => {
                if self.cursor > 0 {
                    self.cursor = self.cursor - 1;
                }
            },
        }
    }
}

/// Relies on `String::push`: appends one character.
#[verifier::external_body]
pub(crate) fn push_char(s: &mut String, c: char)
    ensures
        final(s)@ == old(s)@.push(c),
{
    s.push(c);
}

/// The three candidate lists, one per view.
pub struct Commands {
    pub sorted: Vec<String>,
    pub favorites: Vec<String>,
    pub all: Vec<String>,
}

/// The list a command set holds for a view.
pub open spec fn view_list(c: Commands, v: View) -> Vec<String> {
    match v {
        View::Sorted => c.sorted,
        View::Favorites => c.favorites,
        View::All => c.all,
    }
}

/// The commands a command set holds for a view.
pub open spec fn commands_of(c: Commands, v: View) -> Seq<Seq<char>> {
    view_list(c, v).deep_view()
}

impl Commands {
    /// Build the three views from a raw history and the persisted favorites:
    /// the ranked history, the favorites as given, and the history with
    /// duplicates removed in first-occurrence order.
    pub fn from_history(history: &Vec<String>, favorites: Vec<String>) -> (c: Commands)
        ensures
            ranked(history.deep_view(), c.sorted.deep_view()),
            c.favorites == favorites,
            uniqued(history.deep_view(), c.all.deep_view()),
    {
        let copy = clone_commands(history);
        proof {
            assert(copy.deep_view() =~= history.deep_view());
        }
        let all = unique(history);
        Commands { sorted: sort(copy), favorites, all }
    }

    /// An element-wise copy.
    pub fn duplicate(&self) -> (c: Commands)
        ensures
            c.sorted@ == self.sorted@,
            c.favorites@ == self.favorites@,
            c.all@ == self.all@,
    {
        Commands {
            sorted: clone_commands(&self.sorted),
            favorites: clone_commands(&self.favorites),
            all: clone_commands(&self.all),
        }
    }
}

/// The predicate holding of every command other than `cmd`.
pub open spec fn not_equal_to(cmd: Seq<char>) -> spec_fn(Seq<char>) -> bool {
    |c: Seq<char>| c != cmd
}

/// What toggling a favorite does to the favorites list: append it when
/// absent, remove every occurrence when present.
pub open spec fn fav_toggled(favs: Seq<Seq<char>>, cmd: Seq<char>) -> Seq<Seq<char>> {
    if favs.contains(cmd) {
        favs.filter(not_equal_to(cmd))
    } else {
        favs.push(cmd)
    }
}

/// A sequence whose elements all satisfy the predicate filters to itself.
proof fn lemma_filter_keep_all<A>(s: Seq<A>, pred: spec_fn(A) -> bool)
    requires
        forall|i: int| 0 <= i < s.len() ==> pred(#[trigger] s[i]),
    ensures
        s.filter(pred) == s,
    decreases s.len(),
{
    reveal(Seq::filter);
    if s.len() == 0 {
        assert(s.filter(pred) =~= s);
    } else {
        lemma_filter_keep_all(s.drop_last(), pred);
        assert(s.filter(pred) =~= s);
    }
}

/// Every element of a filtered sequence is an element of the original.
proof fn lemma_filter_subset<A>(s: Seq<A>, pred: spec_fn(A) -> bool)
    ensures
        forall|x: A| #[trigger] s.filter(pred).contains(x) ==> s.contains(x),
    decreases s.len(),
{
    reveal(Seq::filter);
    if s.len() > 0 {
        let d = s.drop_last();
        lemma_filter_subset(d, pred);
        assert forall|x: A| #[trigger] s.filter(pred).contains(x) implies s.contains(x) by {
            let i = choose|i: int| 0 <= i < s.filter(pred).len() && s.filter(pred)[i] == x;
            if pred(s.last()) && i == s.filter(pred).len() - 1 {
                assert(s[s.len() - 1] == x);
            } else {
                assert(d.filter(pred)[i] == x);
                assert(d.filter(pred).contains(x));
                let j = choose|j: int| 0 <= j < d.len() && d[j] == x;
                assert(s[j] == x);
            }
        }
    }
}

/// Toggling a favorite twice returns the favorites to their original
/// membership; when the command was absent, to the exact original list.
pub proof fn lemma_fav_toggle_involutive(favs: Seq<Seq<char>>, cmd: Seq<char>)
    ensures
        forall|x: Seq<char>|
            fav_toggled(fav_toggled(favs, cmd), cmd).contains(x) <==> favs.contains(x),
        !favs.contains(cmd) ==> fav_toggled(fav_toggled(favs, cmd), cmd) == favs,
{
    broadcast use vstd::seq_lib::group_filter_ensures;

    let pred = not_equal_to(cmd);
    if favs.contains(cmd) {
        let once = favs.filter(pred);
        assert(!once.contains(cmd)) by {
            if once.contains(cmd) {
                let i = choose|i: int| 0 <= i < once.len() && once[i] == cmd;
                assert(pred(once[i]));
            }
        }
        let twice = once.push(cmd);
        assert(fav_toggled(favs, cmd) == once);
        assert(fav_toggled(once, cmd) == twice);
        assert forall|x: Seq<char>| twice.contains(x) <==> favs.contains(x) by {
            if x == cmd {
                assert(twice.last() == cmd);
                assert(twice.contains(cmd));
            } else {
                if favs.contains(x) {
                    let i = choose|i: int| 0 <= i < favs.len() && favs[i] == x;
                    assert(pred(favs[i]));
                    assert(once.contains(x));
                    let j = choose|j: int| 0 <= j < once.len() && once[j] == x;
                    assert(twice[j] == x);
                    assert(twice.contains(x));
                } else {
                    if twice.contains(x) {
                        let i = choose|i: int| 0 <= i < twice.len() && twice[i] == x;
                        assert(i < once.len());
                        assert(once.contains(x));
                        lemma_filter_subset(favs, pred);
                        assert(favs.contains(x));
                    }
                }
            }
        }
    } else {
        let once = favs.push(cmd);
        assert(once.last() == cmd);
        assert(once.contains(cmd));
        lemma_filter_push(favs, pred, cmd);
        lemma_filter_keep_all(favs, pred);
        assert(fav_toggled(once, cmd) == favs);
    }
}

/// Remove every occurrence of `cmd` from the list, keeping order.
fn remove_matching(v: &Vec<String>, cmd: &String) -> (r: Vec<String>)
    ensures
        r.deep_view() == v.deep_view().filter(not_equal_to(cmd@)),
{
    let ghost vs = v.deep_view();
    let ghost pred = not_equal_to(cmd@);
    let mut out: Vec<String> = Vec::new();
    let mut i: usize = 0;
    proof {
        assert(vs.subrange(0, 0).filter(pred) =~= Seq::<Seq<char>>::empty());
        assert(out.deep_view() =~= Seq::<Seq<char>>::empty());
    }
    while i < v.len()
        invariant
            0 <= i <= v.len(),
            vs == v.deep_view(),
            vs.len() == v.len(),
            pred == not_equal_to(cmd@),
            out.deep_view() == vs.subrange(0, i as int).filter(pred),
        decreases v.len() - i,
    {
        let ghost old_out = out.deep_view();
        let matches_cmd = v[i].eq(cmd);
        if !matches_cmd {
            let item = v[i].clone();
            out.push(item);
        }
        proof {
            assert(vs.subrange(0, i + 1) =~= vs.subrange(0, i as int).push(vs[i as int]));
            lemma_filter_push(vs.subrange(0, i as int), pred, vs[i as int]);
            if !matches_cmd {
                assert(out.deep_view() =~= old_out.push(vs[i as int]));
            }
        }
        i += 1;
    }
    proof {
        assert(vs.subrange(0, vs.len() as int) =~= vs);
    }
    out
}

/// The whole session state.
pub struct State {
    pub case_sensitivity: bool,
    pub search_mode: SearchMode,
    pub view: View,
    pub shell: Shell,
    pub query: Query,
    pub raw_history: Vec<String>,
    pub commands: Commands,
    pub to_restore: Commands,
}

impl State {
    /// Build the session state from the decoded raw history, the persisted
    /// favorites, and an initial query.
    pub fn new(shell: Shell, raw_history: Vec<String>, favorites: Vec<String>, query: &str) -> (s:
        State)
        ensures
            s.case_sensitivity == false,
            s.search_mode == SearchMode::Exact,
            s.view == View::Sorted,
            s.shell == shell,
            s.query.text@ == query@,
            s.query.cursor == 0,
            s.raw_history == raw_history,
            ranked(raw_history.deep_view(), s.to_restore.sorted.deep_view()),
            s.to_restore.favorites == favorites,
            uniqued(raw_history.deep_view(), s.to_restore.all.deep_view()),
            s.commands.sorted@ == s.to_restore.sorted@,
            s.commands.favorites@ == s.to_restore.favorites@,
            s.commands.all@ == s.to_restore.all@,
    {
        let to_restore = Commands::from_history(&raw_history, favorites);
        let commands = to_restore.duplicate();
        State {
            case_sensitivity: false,
            search_mode: SearchMode::Exact,
            view: View::Sorted,
            shell,
            query: Query::new(query),
            raw_history,
            commands,
            to_restore,
        }
    }

    /// The working list of a view.
    pub fn commands(&self, view: View) -> (r: &Vec<String>)
        ensures
            r.deep_view() == commands_of(self.commands, view),
    {
        match view {
            View::Sorted => &self.commands.sorted,
            View::Favorites => &self.commands.favorites,
            View::All => &self.commands.all,
        }
    }

    /// A mutable borrow of the working list of a view.
    pub fn commands_mut(&mut self, view: View) -> (r: &mut Vec<String>)
        ensures
            *r == view_list(old(self).commands, view),
            final(self).commands == (match view {
                View::Sorted => (Commands {
                    sorted: *final(r),
                    favorites: old(self).commands.favorites,
                    all: old(self).commands.all,
                }),
                View::Favorites => (Commands {
                    sorted: old(self).commands.sorted,
                    favorites: *final(r),
                    all: old(self).commands.all,
                }),
                View::All => (Commands {
                    sorted: old(self).commands.sorted,
                    favorites: old(self).commands.favorites,
                    all: *final(r),
                }),
            }),
            final(self).case_sensitivity == old(self).case_sensitivity,
            final(self).search_mode == old(self).search_mode,
            final(self).view == old(self).view,
            final(self).shell == old(self).shell,
            final(self).query == old(self).query,
            final(self).raw_history == old(self).raw_history,
            final(self).to_restore == old(self).to_restore,
    {
        match view {
            View::Sorted => &mut self.commands.sorted,
            View::Favorites => &mut self.commands.favorites,
            View::All => &mut self.commands.all,
        }
    }

    /// Re-filter the active view's working list from the unfiltered restore
    /// point, under the current query, mode and case setting.  An invalid
    /// regular-expression query leaves the candidates unfiltered.
    pub fn search(&mut self)
        ensures
            final(self).case_sensitivity == old(self).case_sensitivity,
            final(self).search_mode == old(self).search_mode,
            final(self).view == old(self).view,
            final(self).shell == old(self).shell,
            final(self).query == old(self).query,
            final(self).raw_history == old(self).raw_history,
            final(self).to_restore == old(self).to_restore,
            commands_of(final(self).commands, old(self).view) == filtered(
                commands_of(old(self).to_restore, old(self).view),
                old(self).query.text@,
                old(self).search_mode,
                old(self).case_sensitivity,
            ),
            forall|v: View|
                v != old(self).view ==> commands_of(final(self).commands, v) == commands_of(
                    old(self).commands,
                    v,
                ),
    {
        match self.view {
            View::Sorted => {
                let f = filter_commands(
                    &self.to_restore.sorted,
                    &self.query.text,
                    self.search_mode,
                    self.case_sensitivity,
                );
                self.commands.sorted = f;
            },
            View::Favorites => {
                let f = filter_commands(
                    &self.to_restore.favorites,
                    &self.query.text,
                    self.search_mode,
                    self.case_sensitivity,
                );
                self.commands.favorites = f;
            },
            View::All => {
                let f = filter_commands(
                    &self.to_restore.all,
                    &self.query.text,
                    self.search_mode,
                    self.case_sensitivity,
                );
                self.commands.all = f;
            },
        }
    }

    /// Restore the working lists to the unfiltered baseline.
    pub fn restore(&mut self)
        ensures
            final(self).commands.sorted@ == old(self).to_restore.sorted@,
            final(self).commands.favorites@ == old(self).to_restore.favorites@,
            final(self).commands.all@ == old(self).to_restore.all@,
            final(self).case_sensitivity == old(self).case_sensitivity,
            final(self).search_mode == old(self).search_mode,
            final(self).view == old(self).view,
            final(self).shell == old(self).shell,
            final(self).query == old(self).query,
            final(self).raw_history == old(self).raw_history,
            final(self).to_restore == old(self).to_restore,
    {
        let c = self.to_restore.duplicate();
        self.commands = c;
    }

    /// Append the command to the working favorites when absent; remove every
    /// occurrence when present.
    pub fn add_or_rm_fav(&mut self, command: String)
        ensures
            final(self).commands.favorites.deep_view() == fav_toggled(
                old(self).commands.favorites.deep_view(),
                command@,
            ),
            final(self).commands.sorted == old(self).commands.sorted,
            final(self).commands.all == old(self).commands.all,
            final(self).case_sensitivity == old(self).case_sensitivity,
            final(self).search_mode == old(self).search_mode,
            final(self).view == old(self).view,
            final(self).shell == old(self).shell,
            final(self).query == old(self).query,
            final(self).raw_history == old(self).raw_history,
            final(self).to_restore == old(self).to_restore,
    {
        let present = contains_item(&self.commands.favorites, &command);
        if !present {
            let ghost old_favs = self.commands.favorites.deep_view();
            self.commands.favorites.push(command);
            proof {
                assert(self.commands.favorites.deep_view() =~= old_favs.push(command@));
            }
        } else {
            let f = remove_matching(&self.commands.favorites, &command);
            self.commands.favorites = f;
        }
    }

    /// Whether the command is in the working favorites.
    pub fn cmd_in_fav(&self, cmd: &str) -> (r: bool)
        ensures
            r == self.commands.favorites.deep_view().contains(cmd@),
    {
        let favs = &self.commands.favorites;
        let ghost fv = favs.deep_view();
        let mut i: usize = 0;
        while i < favs.len()
            invariant
                0 <= i <= favs.len(),
                fv == self.commands.favorites.deep_view(),
                fv == favs.deep_view(),
                fv.len() == favs.len(),
                forall|k: int| 0 <= k < i ==> fv[k] != cmd@,
            decreases favs.len() - i,
        {
            if str_eq(favs[i].as_str(), cmd) {
                proof {
                    assert(fv[i as int] == cmd@);
                }
                return true;
            }
            i += 1;
        }
        false
    }

    /// Remove every occurrence of the command from the raw history and from
    /// all three views of both the working set and the restore point.
    pub fn delete_from_history(&mut self, command: String)
        ensures
            final(self).raw_history.deep_view() == old(self).raw_history.deep_view().filter(not_equal_to(command@)),
            final(self).commands.sorted.deep_view() == old(self).commands.sorted.deep_view()
                .filter(not_equal_to(command@)),
            final(self).commands.favorites.deep_view() == old(self).commands.favorites.deep_view()
                .filter(not_equal_to(command@)),
            final(self).commands.all.deep_view() == old(self).commands.all.deep_view().filter(not_equal_to(command@)),
            final(self).to_restore.sorted.deep_view() == old(self).to_restore.sorted.deep_view()
                .filter(not_equal_to(command@)),
            final(self).to_restore.favorites.deep_view() == old(
                self,
            ).to_restore.favorites.deep_view().filter(not_equal_to(command@)),
            final(self).to_restore.all.deep_view() == old(self).to_restore.all.deep_view().filter(not_equal_to(command@)),
            final(self).case_sensitivity == old(self).case_sensitivity,
            final(self).search_mode == old(self).search_mode,
            final(self).view == old(self).view,
            final(self).shell == old(self).shell,
            final(self).query == old(self).query,
    {
        let f = remove_matching(&self.commands.sorted, &command);
        self.commands.sorted = f;
        let f = remove_matching(&self.commands.favorites, &command);
        self.commands.favorites = f;
        let f = remove_matching(&self.commands.all, &command);
        self.commands.all = f;
        let f = remove_matching(&self.to_restore.sorted, &command);
        self.to_restore.sorted = f;
        let f = remove_matching(&self.to_restore.favorites, &command);
        self.to_restore.favorites = f;
        let f = remove_matching(&self.to_restore.all, &command);
        self.to_restore.all = f;
        let f = remove_matching(&self.raw_history, &command);
        self.raw_history = f;
    }

    /// Rebuild the restore point from the current raw history and the given
    /// persisted favorites, and copy it into the working set.
    pub fn reload_history(&mut self, favorites: Vec<String>)
        ensures
            ranked(old(self).raw_history.deep_view(), final(self).to_restore.sorted.deep_view()),
            final(self).to_restore.favorites == favorites,
            uniqued(old(self).raw_history.deep_view(), final(self).to_restore.all.deep_view()),
            final(self).commands.sorted@ == final(self).to_restore.sorted@,
            final(self).commands.favorites@ == final(self).to_restore.favorites@,
            final(self).commands.all@ == final(self).to_restore.all@,
            final(self).case_sensitivity == old(self).case_sensitivity,
            final(self).search_mode == old(self).search_mode,
            final(self).view == old(self).view,
            final(self).shell == old(self).shell,
            final(self).query == old(self).query,
            final(self).raw_history == old(self).raw_history,
    {
        let c = Commands::from_history(&self.raw_history, favorites);
        let copy = c.duplicate();
        self.to_restore = c;
        self.commands = copy;
    }

    /// Flip case sensitivity.
    pub fn toggle_case(&mut self)
        ensures
            final(self).case_sensitivity == !old(self).case_sensitivity,
            final(self).search_mode == old(self).search_mode,
            final(self).view == old(self).view,
            final(self).shell == old(self).shell,
            final(self).query == old(self).query,
            final(self).raw_history == old(self).raw_history,
            final(self).commands == old(self).commands,
            final(self).to_restore == old(self).to_restore,
    {
        self.case_sensitivity = !self.case_sensitivity;
    }

    /// Advance the search mode in its cycle.
    pub fn toggle_search_mode(&mut self)
        ensures
            final(self).search_mode == next_search_mode(old(self).search_mode),
            final(self).case_sensitivity == old(self).case_sensitivity,
            final(self).view == old(self).view,
            final(self).shell == old(self).shell,
            final(self).query == old(self).query,
            final(self).raw_history == old(self).raw_history,
            final(self).commands == old(self).commands,
            final(self).to_restore == old(self).to_restore,
    {
        self.search_mode = match self.search_mode {
            SearchMode::Exact => SearchMode::Regex,
            SearchMode::Regex => SearchMode::Fuzzy,
            SearchMode::Fuzzy => SearchMode::Exact,
        };
    }

    /// Advance the view in its cycle.
    pub fn toggle_view(&mut self)
        ensures
            final(self).view == next_view(old(self).view),
            final(self).case_sensitivity == old(self).case_sensitivity,
            final(self).search_mode == old(self).search_mode,
            final(self).shell == old(self).shell,
            final(self).query == old(self).query,
            final(self).raw_history == old(self).raw_history,
            final(self).commands == old(self).commands,
            final(self).to_restore == old(self).to_restore,
    {
        self.view = match self.view {
            View::Sorted => View::Favorites,
            View::Favorites => View::All,
            View::All => View::Sorted,
        };
    }
}

} // verus!
