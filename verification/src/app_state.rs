//! The application state the presentation layer drives: which panel
//! is shown, the find/replace inputs, the per-detector
//! configurations, and the selection state of the order and tag
//! editors.  The state transitions — resets to the presets, editing
//! the keeper-priority order, editing the tag list — live here; the
//! widgets that trigger them do not.

use vstd::prelude::*;
use crate::config::Config;
use crate::presets::default_order_model;
use crate::presets::default_tags;
use crate::presets::default_order;
use crate::presets::default_tags_model;
use crate::presets::tjf_order;
use crate::presets::tjf_order_model;
use crate::presets::tjf_tags;
use crate::presets::tjf_tags_model;
use crate::text::char_in;
use crate::text::ends_with_seq;
use crate::text::str_ends_with;

verus! {

/// Which panel the window shows.
#[derive(Clone, Copy, Debug, PartialEq, Eq, Structural)]
pub enum Panel {
    Duplicates,
    Order,
    OrderText,
    Tags,
    Find,
}

/// The option's text, if any.
pub open spec fn opt_view(o: Option<String>) -> Option<Seq<char>> {
    match o {
        Some(s) => Some(s@),
        None => None,
    }
}

/// The whole application state.
#[derive(Clone, Debug)]
pub struct TemplateApp {
    /// Records in the open database.
    pub total_records: usize,
    /// Find/replace: the column searched.
    pub column: String,
    /// Find/replace: the text sought.
    pub find: String,
    /// Find/replace: the replacement text.
    pub replace: String,
    /// Find/replace: mark touched records dirty.
    pub dirty: bool,
    /// The basic duplicate search; its list is the keeper-priority
    /// order as text, its records the aggregate removal set.
    pub main: Config,
    /// The grouped duplicate search; its option is the grouping
    /// column, its list the column names to choose from.
    pub group: Config,
    /// Process rows with an empty grouping value together instead of
    /// skipping them.
    pub group_null: bool,
    /// The tag search; its list is the tag list.
    pub tags: Config,
    /// The deep-dive search for numerically suffixed filename
    /// variants; shown, but not a detector of this engine.
    pub deep: Config,
    /// The comparison search; its option is the secondary database
    /// path.
    pub compare_db: Config,
    /// Write a safety database of thinned records.
    pub safe: bool,
    /// Write a database of the duplicate records.
    pub dupes_db: bool,
    /// The panel shown.
    pub my_panel: Panel,
    /// Tag editor: the tag being typed.
    pub new_tag: String,
    /// Tag editor: the selected tag indices.
    pub sel_tags: Vec<usize>,
    /// Order editor: the line being typed.
    pub new_line: String,
    /// Order editor: the selected line.
    pub sel_line: Option<usize>,
    /// Order editor: the text-form buffer.
    pub order_text: String,
    /// Order editor: help shown.
    pub help: bool,
    /// Find/replace: a count was previewed and awaits confirmation.
    pub replace_safety: bool,
    /// Find/replace: the previewed or applied count.
    pub count: usize,
    /// A scan was requested.
    pub gather_dupes: bool,
}

/// Every field of a freshly reset application, except the open
/// database path and the two preset lists, which the resets set
/// themselves.
pub open spec fn app_reset_base(app: TemplateApp) -> bool {
    &&& app.total_records == 0
    &&& app.column@ == "Filepath"@
    &&& app.find@.len() == 0
    &&& app.replace@.len() == 0
    &&& app.dirty
    &&& app.main.search
    &&& app.main.status@.len() == 0
    &&& app.main.records.models().len() == 0
    &&& app.main.records.wf()
    &&& !app.main.working
    &&& !app.group.search
    &&& opt_view(app.group.option) == Some("Show"@)
    &&& app.group.list@.len() == 0
    &&& app.group.records.models().len() == 0
    &&& app.group.records.wf()
    &&& !app.group.working
    &&& !app.group_null
    &&& !app.tags.search
    &&& opt_view(app.tags.option) == Some("-"@)
    &&& app.tags.records.models().len() == 0
    &&& app.tags.records.wf()
    &&& !app.tags.working
    &&& !app.deep.search
    &&& app.deep.option is None
    &&& app.deep.list@.len() == 0
    &&& app.deep.records.models().len() == 0
    &&& app.deep.records.wf()
    &&& !app.deep.working
    &&& !app.compare_db.search
    &&& app.compare_db.option is None
    &&& app.compare_db.list@.len() == 0
    &&& app.compare_db.records.models().len() == 0
    &&& app.compare_db.records.wf()
    &&& !app.compare_db.working
    &&& app.safe
    &&& !app.dupes_db
    &&& app.my_panel == Panel::Duplicates
    &&& app.new_tag@.len() == 0
    &&& app.sel_tags@.len() == 0
    &&& app.new_line@.len() == 0
    &&& app.sel_line is None
    &&& app.order_text@.len() == 0
    &&& !app.help
    &&& !app.replace_safety
    &&& app.count == 0
    &&& !app.gather_dupes
}

impl Default for TemplateApp {
    /// The stock state: no database open, the stock presets loaded,
    /// the duplicates panel shown.
    fn default() -> (app: TemplateApp)
        ensures
            app_reset_base(app),
            app.main.option is None,
            app.main.list.deep_view() == default_order_model(),
            app.tags.list.deep_view() == default_tags_model(),
    {
        let mut main = Config::new(true);
        main.list = default_order();
        let mut tags = Config::new_option(false, "-");
        tags.list = default_tags();
        TemplateApp {
            total_records: 0,
            column: String::from_str("Filepath"),
            find: String::new(),
            replace: String::new(),
            dirty: true,
            main,
            group: Config::new_option(false, "Show"),
            group_null: false,
            tags,
            deep: Config::new(false),
            compare_db: Config::new(false),
            safe: true,
            dupes_db: false,
            my_panel: Panel::Duplicates,
            new_tag: String::new(),
            sel_tags: Vec::new(),
            new_line: String::new(),
            sel_line: None,
            order_text: String::new(),
            help: false,
            replace_safety: false,
            count: 0,
            gather_dupes: false,
        }
    }
}

impl TemplateApp {
    /// Reset everything to the stock presets, keeping only the open
    /// database path.
    pub fn reset_to_defaults(&mut self, db_path: Option<String>)
        ensures
            app_reset_base(*final(self)),
            opt_view(final(self).main.option) == opt_view(db_path),
            final(self).main.list.deep_view() == default_order_model(),
            final(self).tags.list.deep_view() == default_tags_model(),
    {
        *self = TemplateApp::default();
        self.main.option = db_path;
    }

    /// Reset everything to the alternate presets, keeping only the
    /// open database path.
    #[allow(non_snake_case)]
    pub fn reset_to_TJFdefaults(&mut self, db_path: Option<String>)
        ensures
            app_reset_base(*final(self)),
            opt_view(final(self).main.option) == opt_view(db_path),
            final(self).main.list.deep_view() == tjf_order_model(),
            final(self).tags.list.deep_view() == tjf_tags_model(),
    {
        *self = TemplateApp::default();
        self.main.option = db_path;
        self.main.list = tjf_order();
        self.tags.list = tjf_tags();
    }

    /// Take over what the gateway read from the open database: its
    /// record count and its visible column names.
    pub fn apply_db_info(&mut self, total: usize, columns: Vec<String>)
        ensures
            final(self).total_records == total,
            final(self).group.list == columns,
            final(self).group == (Config { list: final(self).group.list, ..old(self).group }),
            *final(self) == (TemplateApp {
                total_records: total,
                group: final(self).group,
                ..*old(self)
            }),
    {
        self.total_records = total;
        self.group.list = columns;
    }

    /// Order editor: move the selected line one place up.
    pub fn move_selected_up(&mut self)
        ensures
            match old(self).sel_line {
                Some(i) => if 0 < i < old(self).main.list@.len() {
                    final(self).main.list@ == old(self).main.list@.update(
                        i - 1,
                        old(self).main.list@[i as int],
                    ).update(i as int, old(self).main.list@[i - 1])
                        && final(self).sel_line == Some((i - 1) as usize) && final(self).main == (
                    Config { list: final(self).main.list, ..old(self).main }) && *final(self) == (
                    TemplateApp {
                        main: final(self).main,
                        sel_line: final(self).sel_line,
                        ..*old(self)
                    })
                } else {
                    *final(self) == *old(self)
                },
                None => *final(self) == *old(self),
            },
    {
        if let Some(i) = self.sel_line {
            if i > 0 && i < self.main.list.len() {
                let a = self.main.list[i - 1].clone();
                let b = self.main.list[i].clone();
                self.main.list[i - 1] = b;
                self.main.list[i] = a;
                self.sel_line = Some(i - 1);
            }
        }
    }

    /// Order editor: move the selected line one place down.
    pub fn move_selected_down(&mut self)
        ensures
            match old(self).sel_line {
                Some(i) => if i + 1 < old(self).main.list@.len() {
                    final(self).main.list@ == old(self).main.list@.update(
                        i as int,
                        old(self).main.list@[i + 1],
                    ).update(i + 1, old(self).main.list@[i as int])
                        && final(self).sel_line == Some((i + 1) as usize) && final(self).main == (
                    Config { list: final(self).main.list, ..old(self).main }) && *final(self) == (
                    TemplateApp {
                        main: final(self).main,
                        sel_line: final(self).sel_line,
                        ..*old(self)
                    })
                } else {
                    *final(self) == *old(self)
                },
                None => *final(self) == *old(self),
            },
    {
        let n = self.main.list.len();
        if let Some(i) = self.sel_line {
            if i < n && i + 1 < n {
                let a = self.main.list[i].clone();
                let b = self.main.list[i + 1].clone();
                self.main.list[i] = b;
                self.main.list[i + 1] = a;
                self.sel_line = Some(i + 1);
            }
        }
    }

    /// Order editor: drop the selected line.
    pub fn remove_selected_line(&mut self)
        ensures
            match old(self).sel_line {
                Some(i) => if i < old(self).main.list@.len() {
                    final(self).main.list@ == old(self).main.list@.remove(i as int) && final(self).sel_line is None && final(self).main == (Config {
                        list: final(self).main.list,
                        ..old(self).main
                    }) && *final(self) == (TemplateApp {
                        main: final(self).main,
                        sel_line: final(self).sel_line,
                        ..*old(self)
                    })
                } else {
                    *final(self) == *old(self)
                },
                None => *final(self) == *old(self),
            },
    {
        if let Some(i) = self.sel_line {
            if i < self.main.list.len() {
                self.main.list.remove(i);
                self.sel_line = None;
            }
        }
    }

    /// Order editor: put the typed line first, once it is non-empty.
    pub fn add_order_line(&mut self)
        ensures
            old(self).new_line@.len() > 0 ==> final(self).main.list@.len() == old(self).main.list@.len() + 1 && final(self).main.list@[0]@ == old(self).new_line@ && final(self).main.list@.skip(1) == old(self).main.list@ && final(self).new_line@.len() == 0
                && final(self).main == (Config { list: final(self).main.list, ..old(self).main })
                && *final(self) == (TemplateApp {
                main: final(self).main,
                new_line: final(self).new_line,
                ..*old(self)
            }),
            old(self).new_line@.len() == 0 ==> *final(self) == *old(self),
    {
        if self.new_line.as_str().unicode_len() > 0 {
            let line = self.new_line.clone();
            self.main.list.insert(0, line);
            self.new_line = String::new();
            proof {
                assert(self.main.list@.skip(1) =~= old(self).main.list@);
            }
        }
    }

    /// Tag editor: add the typed tag to the list, once it is
    /// non-empty.
    pub fn add_tag(&mut self)
        ensures
            old(self).new_tag@.len() > 0 ==> final(self).tags.list@ == old(self).tags.list@.push(
                final(self).tags.list@.last(),
            ) && final(self).tags.list@.last()@ == old(self).new_tag@ && final(self).new_tag@.len() == 0 && final(self).tags == (Config {
                list: final(self).tags.list,
                ..old(self).tags
            }) && *final(self) == (TemplateApp {
                tags: final(self).tags,
                new_tag: final(self).new_tag,
                ..*old(self)
            }),
            old(self).new_tag@.len() == 0 ==> *final(self) == *old(self),
    {
        if self.new_tag.as_str().unicode_len() > 0 {
            let tag = self.new_tag.clone();
            self.tags.list.push(tag);
            self.new_tag = String::new();
            proof {
                assert(self.tags.list@ =~= old(self).tags.list@.push(self.tags.list@.last()));
            }
        }
    }

    /// Tag editor: drop every selected tag, then clear the
    /// selection.
    pub fn remove_selected_tags(&mut self)
        ensures
            final(self).tags.list@ == tags_kept(
                old(self).tags.list@,
                old(self).sel_tags@,
                old(self).tags.list@.len() as int,
            ),
            final(self).sel_tags@.len() == 0,
            final(self).tags == (Config { list: final(self).tags.list, ..old(self).tags }),
            *final(self) == (TemplateApp {
                tags: final(self).tags,
                sel_tags: final(self).sel_tags,
                ..*old(self)
            }),
    {
        let n = self.tags.list.len();
        let mut kept: Vec<String> = Vec::new();
        let mut i: usize = 0;
        while i < n
            invariant
                *self == *old(self),
                n == self.tags.list@.len(),
                0 <= i <= n,
                kept@ == tags_kept(self.tags.list@, self.sel_tags@, i as int),
            decreases n - i,
        {
            if !index_selected(&self.sel_tags, i) {
                kept.push(self.tags.list[i].clone());
            }
            proof {
                assert(kept@ =~= tags_kept(self.tags.list@, self.sel_tags@, i + 1));
            }
            i = i + 1;
        }
        self.tags.list = kept;
        self.sel_tags = Vec::new();
    }

    /// Order editor: toggle the help text.
    pub fn toggle_help(&mut self)
        ensures
            final(self).help == !old(self).help,
            *final(self) == (TemplateApp { help: final(self).help, ..*old(self) }),
    {
        self.help = !self.help;
    }
}

/// The lines joined with a newline between each pair, none trailing.
pub open spec fn joined_lines(lines: Seq<Seq<char>>) -> Seq<char>
    decreases lines.len(),
{
    if lines.len() == 0 {
        Seq::empty()
    } else if lines.len() == 1 {
        lines[0]
    } else {
        lines[0] + seq!['\n'] + joined_lines(lines.skip(1))
    }
}

/// Index of the first newline in `s`; the length of `s` when there
/// is none.
pub open spec fn first_nl(s: Seq<char>) -> int
    decreases s.len(),
{
    if s.len() == 0 {
        0
    } else if s[0] == '\n' {
        0
    } else {
        1 + first_nl(s.skip(1))
    }
}

/// What `first_nl` returns: the least newline position, or the
/// length when no newline occurs.
pub proof fn lemma_first_nl(s: Seq<char>)
    ensures
        0 <= first_nl(s) <= s.len(),
        forall|k: int| 0 <= k < first_nl(s) ==> s[k] != '\n',
        first_nl(s) < s.len() ==> s[first_nl(s)] == '\n',
    decreases s.len(),
{
    if s.len() == 0 {
    } else if s[0] == '\n' {
    } else {
        lemma_first_nl(s.skip(1));
        assert(forall|k: int| 1 <= k < s.len() ==> #[trigger] s[k] == s.skip(1)[k - 1]);
    }
}

/// The text split at newlines, a trailing newline closing the last
/// line rather than opening an empty one.
pub open spec fn split_lines(s: Seq<char>) -> Seq<Seq<char>>
    decreases s.len(),
    via split_lines_decreases
{
    if s.len() == 0 {
        Seq::empty()
    } else {
        let k = first_nl(s);
        if k == s.len() {
            seq![s]
        } else {
            seq![s.subrange(0, k)] + split_lines(s.skip(k + 1))
        }
    }
}

#[via_fn]
proof fn split_lines_decreases(s: Seq<char>) {
    lemma_first_nl(s);
}

/// Joining lines and splitting the result gives the lines back,
/// provided no line holds a newline of its own and the last line is
/// not empty (a trailing empty line would vanish in the split).
pub proof fn lemma_order_text_round_trip(lines: Seq<Seq<char>>)
    requires
        forall|i: int| 0 <= i < lines.len() ==> !char_in('\n', #[trigger] lines[i]),
        lines.len() > 0 ==> lines.last().len() > 0,
    ensures
        split_lines(joined_lines(lines)) == lines,
    decreases lines.len(),
{
    let s = joined_lines(lines);
    if lines.len() == 0 {
    } else if lines.len() == 1 {
        assert(s == lines[0]);
        assert(s.len() > 0);
        lemma_first_nl(s);
        assert(first_nl(s) == s.len()) by {
            if first_nl(s) < s.len() {
                assert(char_in('\n', lines[0]));
            }
        }
        assert(split_lines(s) =~= lines);
    } else {
        let l0 = lines[0];
        let rest = joined_lines(lines.skip(1));
        assert(s == l0 + seq!['\n'] + rest);
        assert(s.len() == l0.len() + 1 + rest.len());
        lemma_first_nl(s);
        assert(first_nl(s) == l0.len()) by {
            assert(s[l0.len() as int] == '\n');
            if first_nl(s) < l0.len() {
                assert(s[first_nl(s)] == '\n');
                assert(s[first_nl(s)] == l0[first_nl(s)]);
                assert(char_in('\n', l0));
            }
            if first_nl(s) > l0.len() {
                assert(s[l0.len() as int] != '\n');
            }
        }
        assert(s.subrange(0, l0.len() as int) =~= l0);
        assert(s.skip(l0.len() as int + 1) =~= rest);
        assert(forall|i: int|
            0 <= i < lines.skip(1).len() ==> #[trigger] lines.skip(1)[i] == lines[i + 1]);
        lemma_order_text_round_trip(lines.skip(1));
        assert(split_lines(s) =~= seq![l0] + lines.skip(1));
        assert(seq![l0] + lines.skip(1) =~= lines);
    }
}

impl TemplateApp {
    /// Order editor: open the text form of the keeper-priority
    /// order, one line per rule.
    pub fn open_order_text_editor(&mut self)
        ensures
            final(self).order_text@ == joined_lines(order_list_views(old(self).main.list@)),
            final(self).my_panel == Panel::OrderText,
            *final(self) == (TemplateApp {
                order_text: final(self).order_text,
                my_panel: final(self).my_panel,
                ..*old(self)
            }),
    {
        let n = self.main.list.len();
        let mut text = String::new();
        let mut i: usize = 0;
        while i < n
            invariant
                *self == *old(self),
                n == self.main.list@.len(),
                0 <= i <= n,
                i == 0 ==> text@ == Seq::<char>::empty(),
                0 < i <= n ==> text@ == joined_lines(
                    order_list_views(self.main.list@.subrange(0, i as int)),
                ) + if i < n {
                    seq!['\n']
                } else {
                    Seq::<char>::empty()
                },
            decreases n - i,
        {
            text.append(self.main.list[i].as_str());
            if i + 1 < n {
                text.append("\n");
            }
            proof {
                reveal_strlit("\n");
                lemma_joined_snoc(order_list_views(self.main.list@.subrange(0, i + 1)));
                assert(order_list_views(self.main.list@.subrange(0, i + 1)).drop_last()
                    =~= order_list_views(self.main.list@.subrange(0, i as int)));
                assert(order_list_views(self.main.list@.subrange(0, i + 1)).last()
                    == self.main.list@[i as int]@);
            }
            i = i + 1;
        }
        proof {
            assert(self.main.list@.subrange(0, n as int) =~= self.main.list@);
            if n == 0 {
                assert(order_list_views(self.main.list@) =~= Seq::<Seq<char>>::empty());
            }
        }
        self.order_text = text;
        self.my_panel = Panel::OrderText;
    }

    /// Order editor: save the text form back as the keeper-priority
    /// order, one rule per line.
    pub fn save_order_text(&mut self)
        ensures
            order_list_views(final(self).main.list@) == split_lines(old(self).order_text@),
            final(self).my_panel == Panel::Order,
            final(self).main == (Config { list: final(self).main.list, ..old(self).main }),
            *final(self) == (TemplateApp {
                main: final(self).main,
                my_panel: final(self).my_panel,
                ..*old(self)
            }),
    {
        let text = self.order_text.clone();
        let s = text.as_str();
        let total = s.unicode_len();
        let mut lines: Vec<String> = Vec::new();
        let mut pos: usize = 0;
        proof {
            assert(s@.skip(0) =~= s@);
        }
        while pos < total
            invariant
                *self == *old(self),
                text@ == old(self).order_text@,
                s@ == text@,
                total == s@.len(),
                0 <= pos <= total,
                split_lines(s@) == order_list_views(lines@) + split_lines(s@.skip(pos as int)),
            decreases total - pos,
        {
            let mut k: usize = pos;
            while k < total && s.get_char(k) != '\n'
                invariant
                    total == s@.len(),
                    pos <= k <= total,
                    forall|l: int| pos <= l < k ==> s@[l] != '\n',
                decreases total - k,
            {
                k = k + 1;
            }
            let line = String::from_str(s.substring_char(pos, k));
            proof {
                let tail = s@.skip(pos as int);
                lemma_first_nl(tail);
                assert(forall|l: int| 0 <= l < tail.len() ==> #[trigger] tail[l] == s@[pos + l]);
                assert(first_nl(tail) == k - pos) by {
                    if first_nl(tail) < k - pos {
                        assert(tail[first_nl(tail)] == '\n');
                        assert(s@[pos + first_nl(tail)] != '\n');
                    }
                    if first_nl(tail) > k - pos {
                        assert(k < total);
                        assert(tail[k - pos] == '\n');
                    }
                }
                assert(line@ =~= tail.subrange(0, k - pos));
                if k < total {
                    assert(split_lines(tail) == seq![tail.subrange(0, k - pos)] + split_lines(
                        tail.skip(k - pos + 1),
                    ));
                    assert(tail.skip(k - pos + 1) =~= s@.skip(k + 1));
                } else {
                    assert(first_nl(tail) == tail.len());
                    assert(split_lines(tail) == seq![tail]);
                    assert(tail =~= tail.subrange(0, k - pos));
                }
            }
            let ghost old_lines = lines@;
            lines.push(line);
            proof {
                assert(order_list_views(lines@) =~= order_list_views(old_lines) + seq![
                    lines@.last()@,
                ]);
            }
            if k < total {
                pos = k + 1;
            } else {
                pos = total;
                proof {
                    assert(s@.skip(total as int).len() == 0);
                }
            }
            proof {
                assert(order_list_views(lines@) + split_lines(s@.skip(pos as int))
                    =~= split_lines(s@));
            }
        }
        proof {
            assert(s@.skip(total as int).len() == 0);
            assert(split_lines(s@.skip(total as int)) =~= Seq::<Seq<char>>::empty());
            assert(order_list_views(lines@) =~= split_lines(s@));
        }
        self.main.list = lines;
        self.my_panel = Panel::Order;
    }
}

/// The character sequences of a list of lines.
pub open spec fn order_list_views(list: Seq<String>) -> Seq<Seq<char>> {
    list.map_values(|s: String| s@)
}

/// Joining is one line followed by a newline and the rest: read off
/// the back instead.
proof fn lemma_joined_snoc(lines: Seq<Seq<char>>)
    requires
        lines.len() > 0,
    ensures
        joined_lines(lines) == if lines.len() == 1 {
            lines.last()
        } else {
            joined_lines(lines.drop_last()) + seq!['\n'] + lines.last()
        },
    decreases lines.len(),
{
    if lines.len() > 1 {
        lemma_joined_snoc(lines.skip(1));
        assert(lines.skip(1).drop_last() =~= lines.drop_last().skip(1));
        assert(lines.skip(1).last() == lines.last());
        if lines.len() == 2 {
            assert(joined_lines(lines.drop_last()) =~= lines[0]);
            assert(joined_lines(lines) =~= lines[0] + seq!['\n'] + lines[1]);
        } else {
            assert(lines.drop_last().len() > 1);
            assert(joined_lines(lines.drop_last()) == lines.drop_last()[0] + seq!['\n']
                + joined_lines(lines.drop_last().skip(1)));
            assert(lines.drop_last()[0] == lines[0]);
            assert(joined_lines(lines) =~= joined_lines(lines.drop_last()) + seq!['\n']
                + lines.last());
        }
    }
}

/// Index `i` is among the selected indices.
pub open spec fn idx_selected(sel: Seq<usize>, i: int) -> bool {
    exists|k: int| 0 <= k < sel.len() && sel[k] == i
}

/// The tags among the first `n` whose index is not selected, in
/// order.
pub open spec fn tags_kept(list: Seq<String>, sel: Seq<usize>, n: int) -> Seq<String>
    decreases n,
{
    if n <= 0 {
        Seq::empty()
    } else {
        let prev = tags_kept(list, sel, n - 1);
        if idx_selected(sel, n - 1) {
            prev
        } else {
            prev + seq![list[n - 1]]
        }
    }
}

/// Is index `i` selected?
fn index_selected(sel: &Vec<usize>, i: usize) -> (r: bool)
    ensures
        r == idx_selected(sel@, i as int),
{
    let n = sel.len();
    let mut k: usize = 0;
    while k < n
        invariant
            n == sel@.len(),
            0 <= k <= n,
            forall|l: int| 0 <= l < k ==> sel@[l] != i,
        decreases n - k,
    {
        if sel[k] == i {
            return true;
        }
        k = k + 1;
    }
    false
}

/// What the file picker hands back, as the engine accepts it: a path
/// is kept only when it ends in the recognized database file
/// extension; no path, and a path with any other ending, are alike
/// nothing.
pub fn validate_db_path(path: Option<String>) -> (r: Option<String>)
    ensures
        match path {
            Some(p) => if ends_with_seq(p@, ".sqlite"@) {
                r matches Some(q) && q@ == p@
            } else {
                r is None
            },
            None => r is None,
        },
{
    match path {
        Some(p) => {
            if str_ends_with(p.as_str(), ".sqlite") {
                Some(p)
            } else {
                None
            }
        },
        None => None,
    }
}

} // verus!
