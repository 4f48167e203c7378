//! The OpenFeint dashboard: the decisions behind the screen that lists the
//! installed games with locally tracked OpenFeint achievements and high
//! scores, and the reading of the files it shows.
//!
//! The views themselves are made and changed by the caller; what is decided
//! here is which view to show or hide, and what text goes on the screen.

use crate::text::{
    chars_of, decimal, decimal_string, find_from, lemma_occurrence_from, lines, lines_of,
    occurrence_from, push_char, slice_chars, split_on, split_str, str_views, trim, trimmed,
};
use crate::objc::Id;
use vstd::prelude::*;
use vstd::string::*;

verus! {

broadcast use vstd::string::group_string_axioms;

/// The views of the dashboard that later calls show, hide and fill.
#[derive(Clone, Copy, Debug)]
pub struct OfDashboardStuff {
    pub of_main_view: Id,
    pub detail_view: Id,
    pub detail_text: Id,
    pub page_label: Id,
}

/// The game plaques: one button and one label under it per slot.
#[derive(Clone, Debug)]
pub struct PlaqueStuff {
    buttons: Vec<Id>,
    labels: Vec<Id>,
}

/// A `setHidden:` message to send to a view.
#[derive(Clone, Copy, Debug, PartialEq, Eq, Structural)]
pub struct SetHidden {
    pub view: Id,
    pub hidden: bool,
}

/// Leave the dashboard for the list of all apps.
pub fn show_all_apps(stuff: &OfDashboardStuff) -> (r: Vec<SetHidden>)
    ensures
        r@ == seq![SetHidden { view: stuff.of_main_view, hidden: true }],
{
    let r = vec![SetHidden { view: stuff.of_main_view, hidden: true }];
    assert(r@ =~= seq![SetHidden { view: stuff.of_main_view, hidden: true }]);
    r
}

/// Show the dashboard, and not a game's detail page.
pub fn show_dashboard(stuff: &OfDashboardStuff) -> (r: Vec<SetHidden>)
    ensures
        r@ == seq![
            SetHidden { view: stuff.of_main_view, hidden: false },
            SetHidden { view: stuff.detail_view, hidden: true },
        ],
{
    let r = vec![
        SetHidden { view: stuff.of_main_view, hidden: false },
        SetHidden { view: stuff.detail_view, hidden: true },
    ];
    assert(r@ =~= seq![
        SetHidden { view: stuff.of_main_view, hidden: false },
        SetHidden { view: stuff.detail_view, hidden: true },
    ]);
    r
}

/// Leave a game's detail page.
pub fn hide_detail(stuff: &OfDashboardStuff) -> (r: Vec<SetHidden>)
    ensures
        r@ == seq![SetHidden { view: stuff.detail_view, hidden: true }],
{
    let r = vec![SetHidden { view: stuff.detail_view, hidden: true }];
    assert(r@ =~= seq![SetHidden { view: stuff.detail_view, hidden: true }]);
    r
}

/// Show a game's detail page over the dashboard.
pub fn show_detail_views(stuff: &OfDashboardStuff) -> (r: Vec<SetHidden>)
    ensures
        r@ == seq![
            SetHidden { view: stuff.of_main_view, hidden: false },
            SetHidden { view: stuff.detail_view, hidden: false },
        ],
{
    let r = vec![
        SetHidden { view: stuff.of_main_view, hidden: false },
        SetHidden { view: stuff.detail_view, hidden: false },
    ];
    assert(r@ =~= seq![
        SetHidden { view: stuff.of_main_view, hidden: false },
        SetHidden { view: stuff.detail_view, hidden: false },
    ]);
    r
}

impl PlaqueStuff {
    /// The plaques made of `buttons` and `labels`, slot by slot.
    pub fn new(buttons: Vec<Id>, labels: Vec<Id>) -> (r: PlaqueStuff)
        ensures
            r.buttons() == buttons@,
            r.labels() == labels@,
    {
        PlaqueStuff { buttons, labels }
    }

    pub closed spec fn buttons(&self) -> Seq<Id> {
        self.buttons@
    }

    pub closed spec fn labels(&self) -> Seq<Id> {
        self.labels@
    }

    /// The number of slots: as many as there are both a button and a label
    /// for.
    pub fn slots(&self) -> (r: usize)
        ensures
            r == if self.buttons().len() < self.labels().len() {
                self.buttons().len()
            } else {
                self.labels().len()
            },
    {
        if self.buttons.len() < self.labels.len() {
            self.buttons.len()
        } else {
            self.labels.len()
        }
    }

    /// The button and label of slot `slot`.
    pub fn slot(&self, slot: usize) -> (r: (Id, Id))
        requires
            slot < self.buttons().len(),
            slot < self.labels().len(),
        ensures
            r == (self.buttons()[slot as int], self.labels()[slot as int]),
    {
        (self.buttons[slot], self.labels[slot])
    }
}

/// Whether plaque slot `slot` shows a game: there are `max_slots` slots on
/// the screen and `games` games to show.
pub fn plaque_visible(slot: usize, max_slots: usize, games: usize) -> (r: bool)
    ensures
        r == (slot < max_slots && slot < games),
{
    let shown = if max_slots < games {
        max_slots
    } else {
        games
    };
    slot < shown
}

/// The line under a game's plaque: unlocked and tracked achievements, and
/// the number of high scores where there are any.
pub open spec fn subtitle(unlocked: nat, achievements: nat, scores: nat) -> Seq<char> {
    decimal(unlocked) + "/"@ + decimal(achievements) + " "@ + if scores == 0 {
        "achievements"@
    } else {
        "ach, "@ + decimal(scores) + " scores"@
    }
}

/// The line under a game's plaque.
pub fn plaque_subtitle(unlocked: usize, achievements: usize, scores: usize) -> (r: String)
    ensures
        r@ == subtitle(unlocked as nat, achievements as nat, scores as nat),
{
    let tail = if scores == 0 {
        "achievements".to_owned()
    } else {
        "ach, ".to_owned().concat(decimal_string(scores as u64).as_str()).concat(" scores")
    };
    decimal_string(unlocked as u64).concat("/").concat(decimal_string(achievements as u64).as_str()).concat(
        " ",
    ).concat(tail.as_str())
}

// MARK: - The offline configuration

/// The opening tag `<tag>`.
pub open spec fn opening(tag: Seq<char>) -> Seq<char> {
    "<"@ + tag + ">"@
}

/// The closing tag `</tag>`.
pub open spec fn closing(tag: Seq<char>) -> Seq<char> {
    "</"@ + tag + ">"@
}

/// The text inside the first `<tag>...</tag>` of `s`, trimmed.
pub open spec fn tag_text_of(s: Seq<char>, tag: Seq<char>) -> Option<Seq<char>> {
    match occurrence_from(s, opening(tag), 0) {
        None => None,
        Some(a) => match occurrence_from(s, closing(tag), a + opening(tag).len()) {
            None => None,
            Some(e) => Some(trimmed(s.subrange(a + opening(tag).len(), e))),
        },
    }
}

/// `<tag>`, as a string.
fn opening_tag(tag: &str) -> (r: String)
    ensures
        r@ == opening(tag@),
{
    "<".to_owned().concat(tag).concat(">")
}

/// `</tag>`, as a string.
fn closing_tag(tag: &str) -> (r: String)
    ensures
        r@ == closing(tag@),
{
    "</".to_owned().concat(tag).concat(">")
}

/// The text inside the first `<tag>...</tag>` of `text`, trimmed.
pub fn tag_text<'a>(text: &'a str, tag: &str) -> (r: Option<&'a str>)
    ensures
        r matches Some(t) ==> tag_text_of(text@, tag@) == Some(t@),
        r is None ==> tag_text_of(text@, tag@) is None,
{
    let cs = chars_of(text);
    let open = chars_of(opening_tag(tag).as_str());
    let close = chars_of(closing_tag(tag).as_str());
    let a = match find_from(cs.as_slice(), open.as_slice(), 0) {
        Some(a) => a,
        None => return None,
    };
    let n = cs.len();
    assert(a + open@.len() <= n);
    let start = a + open.len();
    let e = match find_from(cs.as_slice(), close.as_slice(), start) {
        Some(e) => e,
        None => return None,
    };
    Some(trim(slice_chars(text, start, e)))
}

/// The contents of the `<element>...</element>` blocks of `s` from position
/// `j` on, in order, each block ending at the first closing tag after its
/// opening one; an opening tag with no closing tag after it ends the list.
pub open spec fn blocks_from(s: Seq<char>, open: Seq<char>, close: Seq<char>, j: int) -> Seq<
    Seq<char>,
>
    decreases s.len() + 1 - j,
{
    if j < 0 || open.len() == 0 {
        Seq::empty()
    } else {
        match occurrence_from(s, open, j) {
            None => Seq::empty(),
            Some(a) => match occurrence_from(s, close, a + open.len()) {
                None => Seq::empty(),
                Some(e) => {
                    proof {
                        lemma_occurrence_from(s, open, j);
                        lemma_occurrence_from(s, close, a + open.len());
                    }
                    seq![s.subrange(a + open.len(), e)] + blocks_from(s, open, close, e + close.len())
                },
            },
        }
    }
}

/// The contents of the `<element>...</element>` blocks of `text`, in order.
pub fn element_blocks<'a>(text: &'a str, element: &str) -> (r: Vec<&'a str>)
    ensures
        str_views(r@) == blocks_from(text@, opening(element@), closing(element@), 0),
{
    let cs = chars_of(text);
    let open = chars_of(opening_tag(element).as_str());
    let close = chars_of(closing_tag(element).as_str());
    proof {
        reveal_strlit("<");
        reveal_strlit(">");
    }
    assert(open@.len() > 0);
    let mut blocks: Vec<&'a str> = Vec::new();
    let mut rest: usize = 0;
    loop
        invariant
            cs@ == text@,
            open@ == opening(element@),
            close@ == closing(element@),
            open@.len() > 0,
            rest <= cs@.len(),
            str_views(blocks@) + blocks_from(text@, open@, close@, rest as int) == blocks_from(
                text@,
                open@,
                close@,
                0,
            ),
        ensures
            str_views(blocks@) == blocks_from(text@, open@, close@, 0),
        decreases cs@.len() + 1 - rest,
    {
        let a = match find_from(cs.as_slice(), open.as_slice(), rest) {
            Some(a) => a,
            None => {
                assert(blocks_from(text@, open@, close@, rest as int) =~= Seq::<Seq<char>>::empty());
                assert(str_views(blocks@) + Seq::empty() =~= str_views(blocks@));
                break;
            },
        };
        let n = cs.len();
        assert(a + open@.len() <= n);
        let start = a + open.len();
        let e = match find_from(cs.as_slice(), close.as_slice(), start) {
            Some(e) => e,
            None => {
                assert(blocks_from(text@, open@, close@, rest as int) =~= Seq::empty());
                assert(str_views(blocks@) + Seq::empty() =~= str_views(blocks@));
                break;
            },
        };
        let block = slice_chars(text, start, e);
        let ghost before = str_views(blocks@);
        let ghost later = blocks_from(text@, open@, close@, (e + close@.len()) as int);
        assert(blocks_from(text@, open@, close@, rest as int) == seq![block@] + later);
        blocks.push(block);
        assert(str_views(blocks@) =~= before.push(block@));
        assert(before + (seq![block@] + later) =~= before.push(block@) + later);
        assert(e + close@.len() <= n);
        rest = e + close.len();
    }
    blocks
}

/// The fields of a tab-separated line: the first two, which it must have,
/// and the third, empty where it has none.
pub open spec fn tsv_fields_of(line: Seq<char>) -> Option<(Seq<char>, Seq<char>, Seq<char>)> {
    let parts = split_on(line, '\t');
    if parts.len() < 2 {
        None
    } else {
        Some((parts[0], parts[1], if parts.len() > 2 { parts[2] } else { Seq::empty() }))
    }
}

/// The fields of a tab-separated line.
pub fn tsv_fields(line: &str) -> (r: Option<(String, String, String)>)
    ensures
        r matches Some(f) ==> tsv_fields_of(line@) == Some((f.0@, f.1@, f.2@)),
        r is None ==> tsv_fields_of(line@) is None,
{
    let parts = split_str(line, '\t');
    assert(parts@.len() == str_views(parts@).len());
    if parts.len() < 2 {
        return None;
    }
    assert(str_views(parts@)[0] == parts@[0]@);
    assert(str_views(parts@)[1] == parts@[1]@);
    let third = if parts.len() > 2 {
        assert(str_views(parts@)[2] == parts@[2]@);
        parts[2].to_owned()
    } else {
        String::new()
    };
    Some((parts[0].to_owned(), parts[1].to_owned(), third))
}

/// The records of a tab-separated file: the fields of each line that has at
/// least two, in order.
pub open spec fn tsv_records_of(lines: Seq<Seq<char>>) -> Seq<(Seq<char>, Seq<char>, Seq<char>)>
    decreases lines.len(),
{
    if lines.len() == 0 {
        Seq::empty()
    } else {
        match tsv_fields_of(lines.last()) {
            Some(f) => tsv_records_of(lines.drop_last()).push(f),
            None => tsv_records_of(lines.drop_last()),
        }
    }
}

/// The view of a record.
pub open spec fn record_view(r: (String, String, String)) -> (Seq<char>, Seq<char>, Seq<char>) {
    (r.0@, r.1@, r.2@)
}

/// The records of the tab-separated `text`.
pub fn tsv_records(text: &str) -> (r: Vec<(String, String, String)>)
    ensures
        r@.map_values(|x: (String, String, String)| record_view(x)) == tsv_records_of(
            lines_of(text@),
        ),
{
    let ls = lines(text);
    let ghost lv = str_views(ls@);
    let mut r: Vec<(String, String, String)> = Vec::new();
    let mut i: usize = 0;
    while i < ls.len()
        invariant
            lv == str_views(ls@),
            lv == lines_of(text@),
            i <= ls@.len(),
            r@.map_values(|x: (String, String, String)| record_view(x)) == tsv_records_of(
                lv.take(i as int),
            ),
        decreases ls@.len() - i,
    {
        assert(lv.take(i + 1).drop_last() =~= lv.take(i as int));
        assert(lv.take(i + 1).last() == ls@[i as int]@);
        let ghost before = r@.map_values(|x: (String, String, String)| record_view(x));
        match tsv_fields(ls[i]) {
            Some(f) => {
                r.push(f);
                assert(r@.map_values(|x: (String, String, String)| record_view(x)) =~= before.push(
                    record_view(f),
                ));
            },
            None => {},
        }
        i = i + 1;
    }
    assert(lv.take(i as int) =~= lv);
    r
}

/// The name a high score is shown under: its display name, or its
/// leaderboard id where the display name is empty.
pub fn score_name(id: String, display: String) -> (r: String)
    ensures
        r@ == if display@.len() == 0 {
            id@
        } else {
            display@
        },
{
    if display.as_str().is_empty() {
        id
    } else {
        display
    }
}

/// An achievement as the offline configuration defines it: its id, its
/// title (the id where it has none), and the text of its gamerscore, if it
/// gives one.
pub open spec fn achievement_of(block: Seq<char>) -> Option<(Seq<char>, Seq<char>, Option<Seq<char>>)> {
    match tag_text_of(block, "id"@) {
        None => None,
        Some(id) => Some(
            (
                id,
                match tag_text_of(block, "title"@) {
                    Some(t) => t,
                    None => id,
                },
                tag_text_of(block, "gamerscore"@),
            ),
        ),
    }
}

/// The achievements the blocks define, skipping a block without an id.
pub open spec fn achievements_of(blocks: Seq<Seq<char>>) -> Seq<
    (Seq<char>, Seq<char>, Option<Seq<char>>),
>
    decreases blocks.len(),
{
    if blocks.len() == 0 {
        Seq::empty()
    } else {
        match achievement_of(blocks.last()) {
            Some(a) => achievements_of(blocks.drop_last()).push(a),
            None => achievements_of(blocks.drop_last()),
        }
    }
}

/// The view of an achievement definition.
pub open spec fn definition_view(d: (String, String, Option<String>)) -> (
    Seq<char>,
    Seq<char>,
    Option<Seq<char>>,
) {
    (
        d.0@,
        d.1@,
        match d.2 {
            Some(g) => Some(g@),
            None => None,
        },
    )
}

/// The achievements that an `openfeint_offline_config.xml` defines, in
/// order.
pub fn achievement_definitions(config: &str) -> (r: Vec<(String, String, Option<String>)>)
    ensures
        r@.map_values(|d: (String, String, Option<String>)| definition_view(d)) == achievements_of(
            blocks_from(config@, opening("achievement"@), closing("achievement"@), 0),
        ),
{
    let blocks = element_blocks(config, "achievement");
    let ghost bv = str_views(blocks@);
    let mut r: Vec<(String, String, Option<String>)> = Vec::new();
    let mut i: usize = 0;
    while i < blocks.len()
        invariant
            bv == str_views(blocks@),
            i <= blocks@.len(),
            r@.map_values(|d: (String, String, Option<String>)| definition_view(d))
                == achievements_of(bv.take(i as int)),
        decreases blocks@.len() - i,
    {
        let block = blocks[i];
        assert(bv.take(i + 1).drop_last() =~= bv.take(i as int));
        assert(bv.take(i + 1).last() == block@);
        let ghost before = r@.map_values(|d: (String, String, Option<String>)| definition_view(d));
        match tag_text(block, "id") {
            Some(id) => {
                let title = match tag_text(block, "title") {
                    Some(t) => t,
                    None => id,
                };
                let gamerscore = match tag_text(block, "gamerscore") {
                    Some(g) => Some(g.to_owned()),
                    None => None,
                };
                let d = (id.to_owned(), title.to_owned(), gamerscore);
                r.push(d);
                assert(r@.map_values(|d: (String, String, Option<String>)| definition_view(d))
                    =~= before.push(definition_view(d)));
            },
            None => {},
        }
        i = i + 1;
    }
    assert(bv.take(i as int) =~= bv);
    r
}

// MARK: - The detail page

/// Lines of stats per page of a game's detail page.
pub const LINES_PER_PAGE: usize = 14;

/// The number of pages `n` lines take: as many as hold them all, and at
/// least one.
pub open spec fn page_count(n: int) -> int {
    if n <= 0 {
        1
    } else {
        (n - 1) / (LINES_PER_PAGE as int) + 1
    }
}

/// `lines` joined with line feeds between them.
pub open spec fn joined_lines(lines: Seq<Seq<char>>) -> Seq<char>
    decreases lines.len(),
{
    if lines.len() == 0 {
        Seq::empty()
    } else if lines.len() == 1 {
        lines[0]
    } else {
        joined_lines(lines.drop_last()) + seq!['\n'] + lines.last()
    }
}

/// The page label: `Page <n>/<count>` where there is more than one page,
/// else nothing.
pub open spec fn page_label_text(page: int, pages: int) -> Seq<char> {
    if pages > 1 {
        "Page "@ + decimal((page + 1) as nat) + "/"@ + decimal(pages as nat)
    } else {
        Seq::empty()
    }
}

/// The text and the page label of page `page` of a detail page of `lines`:
/// a page past the last shows the last.
pub open spec fn detail_page_of(lines: Seq<Seq<char>>, page: int) -> (Seq<char>, Seq<char>) {
    let pages = page_count(lines.len() as int);
    let shown = if page < pages - 1 {
        page
    } else {
        pages - 1
    };
    let start = shown * LINES_PER_PAGE;
    let end = if start + LINES_PER_PAGE < lines.len() {
        start + LINES_PER_PAGE
    } else {
        lines.len() as int
    };
    let body = joined_lines(lines.subrange(start, end));
    let label = page_label_text(shown, pages);
    (if pages > 1 {
        body + seq!['\n'] + label
    } else {
        body
    }, label)
}

/// The text and the page label of page `page` of a game's detail page,
/// whose stats are `lines`.
pub fn detail_page(lines: &[String], page: usize) -> (r: (String, String))
    ensures
        (r.0@, r.1@) == detail_page_of(lines@.map_values(|l: String| l@), page as int),
{
    let ghost lv = lines@.map_values(|l: String| l@);
    let n = lines.len();
    let pages: usize = if n == 0 {
        1
    } else {
        (n - 1) / LINES_PER_PAGE + 1
    };
    let shown = if page < pages - 1 {
        page
    } else {
        pages - 1
    };
    assert(shown * 14 <= n) by (nonlinear_arith)
        requires
            shown <= pages - 1,
            n == 0 ==> pages == 1,
            n > 0 ==> pages == (n - 1) / 14 + 1,
    {
    }
    let start = shown * LINES_PER_PAGE;
    let end = if n - start > LINES_PER_PAGE {
        start + LINES_PER_PAGE
    } else {
        n
    };
    let mut body = String::new();
    let mut i = start;
    while i < end
        invariant
            start <= i <= end <= n,
            n == lines@.len(),
            lv == lines@.map_values(|l: String| l@),
            body@ == joined_lines(lv.subrange(start as int, i as int)),
        decreases end - i,
    {
        if i > start {
            push_char(&mut body, '\n');
        }
        body.append(lines[i].as_str());
        proof {
            let pre = lv.subrange(start as int, i as int);
            let post = lv.subrange(start as int, i + 1);
            assert(post.drop_last() =~= pre);
            assert(post.last() == lines@[i as int]@);
            if i == start {
                assert(post.len() == 1);
            }
        }
        i = i + 1;
    }
    let label = if pages > 1 {
        "Page ".to_owned().concat(decimal_string((shown + 1) as u64).as_str()).concat("/").concat(
            decimal_string(pages as u64).as_str(),
        )
    } else {
        String::new()
    };
    let text = if pages > 1 {
        let mut t = body;
        push_char(&mut t, '\n');
        t.append(label.as_str());
        t
    } else {
        body
    };
    (text, label)
}

} // verus!
