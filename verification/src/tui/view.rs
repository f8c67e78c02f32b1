//! What the panes show: titles, rows and family trees as styled text.

use vstd::prelude::*;

use crate::chance::eggs_to_hundredths;
use crate::chance::hundredths_text;
use crate::iv::no_thresholds;
use crate::iv::IvThresholds;
use crate::model::holds_pal;
use crate::model::holds_passive;
use crate::model::passive_texts;
use crate::model::IvSpread;
use crate::model::IvValue;
use crate::model::Pal;
use crate::model::PalDb;
use crate::model::PassiveName;
use crate::model::PassiveSkill;
use crate::names::display;
use crate::names::display_passive;
use crate::names::shown;
use crate::names::shown_passive;
use crate::search::plan::PlanNode;
use crate::search::plan::PlanTree;
use crate::search::plan::PlanView;
use crate::seqs::referents;
use crate::text::decimal;
use crate::text::decimal_of;
use crate::tui::app::missing_leaves;
use crate::tui::app::App;
use crate::tui::app::Overlay;
use crate::tui::command::clamped;
use crate::tui::state::AppState;
use crate::tui::state::Layer;
use crate::tui::state::Pane;
use crate::tui::state::SearchActivity;
use crate::tui::store::SavedView;

verus! {

// ---------------------------------------------------------------------
// Styled text
// ---------------------------------------------------------------------
/// How a piece of text looks.
#[derive(Clone, Copy, PartialEq, Eq, Structural, Debug)]
pub enum Tint {
    Plain,
    Dim,
    Reversed,
    Red,
    Yellow,
    Cyan,
}

/// A piece of text in one style.
#[derive(PartialEq, Eq, Debug)]
pub struct TextSpan {
    pub content: String,
    pub tint: Tint,
}

/// A piece of text as plain values.
pub struct SpanView {
    pub content: Seq<char>,
    pub tint: Tint,
}

impl View for TextSpan {
    type V = SpanView;

    open spec fn view(&self) -> SpanView {
        SpanView { content: self.content@, tint: self.tint }
    }
}

/// Pieces of text as plain values.
pub open spec fn span_views(spans: Seq<TextSpan>) -> Seq<SpanView> {
    spans.map_values(|s: TextSpan| s@)
}

/// A line of styled text.
#[derive(PartialEq, Eq, Debug)]
pub struct TextLine {
    pub spans: Vec<TextSpan>,
}

impl View for TextLine {
    type V = Seq<SpanView>;

    open spec fn view(&self) -> Seq<SpanView> {
        span_views(self.spans@)
    }
}

/// Lines as plain values.
pub open spec fn line_views(lines: Seq<TextLine>) -> Seq<Seq<SpanView>> {
    lines.map_values(|l: TextLine| l@)
}

/// A piece of plain text.
pub open spec fn plain(content: Seq<char>) -> SpanView {
    SpanView { content, tint: Tint::Plain }
}

/// A line of one piece.
pub open spec fn single(span: SpanView) -> Seq<SpanView> {
    seq![span]
}

fn span(content: String, tint: Tint) -> (r: TextSpan)
    ensures
        r@ == (SpanView { content: content@, tint }),
{
    TextSpan { content, tint }
}

fn line_of(content: String, tint: Tint) -> (r: TextLine)
    ensures
        r@ == single(SpanView { content: content@, tint }),
{
    let mut spans: Vec<TextSpan> = Vec::new();
    spans.push(span(content, tint));
    let r = TextLine { spans };
    proof {
        assert(r@ =~= single(SpanView { content: content@, tint }));
    }
    r
}

/// The game's passive-tier palette: detrimental passives (negative rank)
/// red, regular tiers 1-3 gold, the special "rainbow" tier (rank 4+)
/// teal.
pub open spec fn rank_tint(rank: i8) -> Tint {
    if rank < 0 {
        Tint::Red
    } else if rank >= 4 {
        Tint::Cyan
    } else if rank >= 1 {
        Tint::Yellow
    } else {
        Tint::Plain
    }
}

/// The style of a passive of some rank.
pub fn rank_style(rank: i8) -> (r: Tint)
    ensures
        r == rank_tint(rank),
{
    if rank < 0 {
        Tint::Red
    } else if rank >= 4 {
        Tint::Cyan
    } else if rank >= 1 {
        Tint::Yellow
    } else {
        Tint::Plain
    }
}

// ---------------------------------------------------------------------
// Family trees
// ---------------------------------------------------------------------
/// The style of a passive.
pub open spec fn passive_tint(db: PalDb, name: Seq<char>) -> Tint {
    match db.lookup_skill(name) {
        Some(skill) => rank_tint(skill.rank),
        None => Tint::Plain,
    }
}

/// ` · <verb>name, name, …` with every passive name styled by tier.
pub open spec fn passive_spans(db: PalDb, names: Seq<Seq<char>>, verb: Seq<char>) -> Seq<SpanView>
    decreases names.len(),
{
    if names.len() == 0 {
        Seq::empty()
    } else {
        let lead = if names.len() == 1 {
            " · "@ + verb
        } else {
            ", "@
        };
        passive_spans(db, names.drop_last(), verb).push(plain(lead)).push(
            SpanView {
                content: shown_passive(db, names.last()),
                tint: passive_tint(db, names.last()),
            },
        )
    }
}

fn spans_of_passives(db: &PalDb, names: &Vec<PassiveName>, verb: &str) -> (r: Vec<TextSpan>)
    requires
        db.wf(),
    ensures
        span_views(r@) == passive_spans(*db, passive_texts(names@), verb@),
{
    let ghost list = passive_texts(names@);
    let mut out: Vec<TextSpan> = Vec::new();
    let mut i: usize = 0;
    proof {
        assert(list.take(0) =~= Seq::empty());
        assert(span_views(out@) =~= Seq::empty());
    }
    while i < names.len()
        invariant
            db.wf(),
            list == passive_texts(names@),
            i <= names@.len(),
            span_views(out@) == passive_spans(*db, list.take(i as int), verb@),
        decreases names@.len() - i,
    {
        let name = &names[i];
        proof {
            assert(list.take(i + 1).drop_last() =~= list.take(i as int));
            assert(list.take(i + 1).last() == name@);
        }
        let lead: String = if i == 0 {
            let mut text = " · ".to_owned();
            text.append(verb);
            text
        } else {
            ", ".to_owned()
        };
        let tint = match db.passive(name) {
            Some(skill) => rank_style(skill.rank),
            None => Tint::Plain,
        };
        let ghost so_far = span_views(out@);
        out.push(span(lead, Tint::Plain));
        out.push(span(display_passive(db, name).to_owned(), tint));
        proof {
            assert(span_views(out@) =~= so_far.push(plain(lead@)).push(
                SpanView { content: shown_passive(*db, name@), tint },
            ));
        }
        i = i + 1;
    }
    proof {
        assert(list.take(i as int) =~= list);
    }
    out
}

/// Where a node hangs in its tree.
#[derive(Clone, Copy, PartialEq, Eq, Structural, Debug)]
pub enum Branch {
    Root,
    Male,
    Female,
}

impl Branch {
    /// What stands before a node: the line that leads to it and the
    /// slot it fills.
    pub open spec fn lead(self) -> Seq<char> {
        match self {
            Branch::Root => ""@,
            Branch::Male => "├─ ♂ "@,
            Branch::Female => "╰─ ♀ "@,
        }
    }

    /// What the lines below a node begin with.
    pub open spec fn below(self) -> Seq<char> {
        match self {
            Branch::Root => ""@,
            Branch::Male => "│  "@,
            Branch::Female => "   "@,
        }
    }

    fn lead_text(self) -> (r: &'static str)
        ensures
            r@ == self.lead(),
    {
        match self {
            Branch::Root => "",
            Branch::Male => "├─ ♂ ",
            Branch::Female => "╰─ ♀ ",
        }
    }

    fn below_text(self) -> (r: &'static str)
        ensures
            r@ == self.below(),
    {
        match self {
            Branch::Root => "",
            Branch::Male => "│  ",
            Branch::Female => "   ",
        }
    }
}

/// The individual values of an owned leaf.
pub open spec fn ivs_text(ivs: IvSpread) -> Seq<char> {
    " · IVs "@ + decimal(ivs.hp@ as nat) + "/"@ + decimal(ivs.attack@ as nat) + "/"@ + decimal(
        ivs.defense@ as nat,
    )
}

fn ivs_label(ivs: IvSpread) -> (r: String)
    ensures
        r@ == ivs_text(ivs),
{
    let mut out = " · IVs ".to_owned();
    out.append(decimal_of(ivs.hp.get() as u128).as_str());
    out.append("/");
    out.append(decimal_of(ivs.attack.get() as u128).as_str());
    out.append("/");
    out.append(decimal_of(ivs.defense.get() as u128).as_str());
    out
}

/// The icon of a node: where the pal comes from.
pub open spec fn icon(tree: PlanTree) -> Seq<char> {
    match tree {
        PlanTree::Owned(_) => "🎒"@,
        PlanTree::Wild(_) => "🌿"@,
        PlanTree::Progenitor(_) => "⭐"@,
        PlanTree::Bred { male, female, species, carried } => "🥚"@,
    }
}

/// What is said of a node after its name.
pub open spec fn annotation(db: PalDb, tree: PlanTree, show_ivs: bool) -> Seq<SpanView> {
    match tree {
        PlanTree::Owned(pal) => {
            let spans = passive_spans(db, pal.passives, ""@);
            if show_ivs {
                spans.push(SpanView { content: ivs_text(pal.ivs), tint: Tint::Dim })
            } else {
                spans
            }
        },
        PlanTree::Wild(_) => single(plain(" · catch"@)),
        PlanTree::Progenitor(_) => single(plain(" · your progenitor"@)),
        PlanTree::Bred { male, female, species, carried } => passive_spans(
            db,
            carried,
            "hatch for "@,
        ),
    }
}

/// The line of one node.
pub open spec fn node_line(
    db: PalDb,
    tree: PlanTree,
    show_ivs: bool,
    prefix: Seq<char>,
    branch: Branch,
) -> Seq<SpanView> {
    single(
        plain(prefix + branch.lead() + icon(tree) + " "@ + shown(db, tree.root_species())),
    ) + annotation(db, tree, show_ivs)
}

/// The lines of a tree: the node, then its parents as branches, the male
/// first.
pub open spec fn tree_lines(
    db: PalDb,
    tree: PlanTree,
    show_ivs: bool,
    prefix: Seq<char>,
    branch: Branch,
) -> Seq<Seq<SpanView>>
    decreases tree,
{
    let head = seq![node_line(db, tree, show_ivs, prefix, branch)];
    match tree {
        PlanTree::Bred { male, female, species, carried } => {
            let below = prefix + branch.below();
            head + tree_lines(db, *male, show_ivs, below, Branch::Male) + tree_lines(
                db,
                *female,
                show_ivs,
                below,
                Branch::Female,
            )
        },
        _ => head,
    }
}

fn line_of_node(
    db: &PalDb,
    node: &PlanNode,
    show_ivs: bool,
    prefix: &str,
    branch: Branch,
) -> (r: TextLine)
    requires
        db.wf(),
    ensures
        r@ == node_line(*db, node@, show_ivs, prefix@, branch),
{
    let mut annotated: Vec<TextSpan> = match node {
        PlanNode::Owned(pal) => {
            let mut spans = spans_of_passives(db, &pal.passives, "");
            let ghost so_far = span_views(spans@);
            if show_ivs {
                spans.push(span(ivs_label(pal.ivs), Tint::Dim));
                proof {
                    assert(span_views(spans@) =~= so_far.push(
                        SpanView { content: ivs_text(pal.ivs), tint: Tint::Dim },
                    ));
                }
            }
            spans
        },
        PlanNode::Wild(_) => line_of(" · catch".to_owned(), Tint::Plain).spans,
        PlanNode::Progenitor(_) => line_of(" · your progenitor".to_owned(), Tint::Plain).spans,
        PlanNode::Bred(bred) => spans_of_passives(db, &bred.carried_passives, "hatch for "),
    };
    let mut text = prefix.to_owned();
    text.append(branch.lead_text());
    match node {
        PlanNode::Owned(_) => {
            text.append("🎒");
        },
        PlanNode::Wild(_) => {
            text.append("🌿");
        },
        PlanNode::Progenitor(_) => {
            text.append("⭐");
        },
        PlanNode::Bred(_) => {
            text.append("🥚");
        },
    }
    text.append(" ");
    text.append(display(db, node.species()));
    let mut spans: Vec<TextSpan> = Vec::new();
    spans.push(span(text, Tint::Plain));
    let ghost head = span_views(spans@);
    let ghost rest = span_views(annotated@);
    spans.append(&mut annotated);
    let r = TextLine { spans };
    proof {
        assert(head =~= single(plain(text@)));
        assert(r@ =~= head + rest);
    }
    r
}

fn push_tree(
    db: &PalDb,
    node: &PlanNode,
    show_ivs: bool,
    prefix: &str,
    branch: Branch,
    out: &mut Vec<TextLine>,
)
    requires
        db.wf(),
    ensures
        line_views(final(out)@) == line_views(old(out)@) + tree_lines(
            *db,
            node@,
            show_ivs,
            prefix@,
            branch,
        ),
    decreases *node,
{
    let ghost start = line_views(out@);
    let ghost head = seq![node_line(*db, node@, show_ivs, prefix@, branch)];
    out.push(line_of_node(db, node, show_ivs, prefix, branch));
    proof {
        assert(line_views(out@) =~= start + head);
    }
    match node {
        PlanNode::Bred(bred) => {
            let mut below = prefix.to_owned();
            below.append(branch.below_text());
            push_tree(db, &bred.male, show_ivs, below.as_str(), Branch::Male, out);
            push_tree(db, &bred.female, show_ivs, below.as_str(), Branch::Female, out);
            proof {
                let males = tree_lines(*db, bred.male@, show_ivs, below@, Branch::Male);
                let females = tree_lines(*db, bred.female@, show_ivs, below@, Branch::Female);
                assert(start + head + males + females =~= start + (head + males + females));
            }
        },
        _ => {},
    }
}

/// Family-tree rendering of a plan: the bred result on top, parents as
/// branches (♂ first), leaves tagged by where the pal comes from.
/// Passive names carry their in-game tier color.
///
/// ```text
/// 🥚 Fuack
/// ├─ ♂ 🎒 Lamball · Swift
/// ╰─ ♀ 🥚 Daedream · hatch for Swift
///    ├─ ♂ ⭐ Anubis · your progenitor
///    ╰─ ♀ 🌿 Cattiva · catch
/// ```
pub fn plan_tree(db: &PalDb, root: &PlanNode, show_ivs: bool) -> (r: Vec<TextLine>)
    requires
        db.wf(),
    ensures
        line_views(r@) == tree_lines(*db, root@, show_ivs, ""@, Branch::Root),
{
    let mut lines: Vec<TextLine> = Vec::new();
    proof {
        assert(line_views(lines@) =~= Seq::empty());
    }
    push_tree(db, root, show_ivs, "", Branch::Root, &mut lines);
    proof {
        let whole = tree_lines(*db, root@, show_ivs, ""@, Branch::Root);
        assert(Seq::<Seq<SpanView>>::empty() + whole =~= whole);
    }
    lines
}

// ---------------------------------------------------------------------
// Titles
// ---------------------------------------------------------------------
/// One minimum of a title.
pub open spec fn iv_part(threshold: Option<IvValue>) -> Seq<char> {
    match threshold {
        Some(minimum) => decimal(minimum@ as nat),
        None => "–"@,
    }
}

/// The title segment for active IV minimums; empty when none are set.
pub open spec fn iv_segment(t: IvThresholds) -> Seq<char> {
    if t == no_thresholds() {
        ""@
    } else {
        " · IV ≥ "@ + iv_part(t.hp) + "/"@ + iv_part(t.attack) + "/"@ + iv_part(t.defense)
    }
}

fn iv_part_text(threshold: Option<IvValue>) -> (r: String)
    ensures
        r@ == iv_part(threshold),
{
    match threshold {
        Some(minimum) => decimal_of(minimum.get() as u128),
        None => "–".to_owned(),
    }
}

/// Title segment for active IV minimums, hp/attack/defense order, `–`
/// for stats without one; empty when none are set.
pub fn iv_title(thresholds: IvThresholds) -> (r: String)
    ensures
        r@ == iv_segment(thresholds),
{
    if thresholds.is_empty() {
        return "".to_owned();
    }
    let mut out = " · IV ≥ ".to_owned();
    out.append(iv_part_text(thresholds.hp).as_str());
    out.append("/");
    out.append(iv_part_text(thresholds.attack).as_str());
    out.append("/");
    out.append(iv_part_text(thresholds.defense).as_str());
    out
}

/// The spinner's picture in a title, which marks a search in flight.
pub open spec fn spinner_segment(activity: SearchActivity) -> Seq<char> {
    match activity {
        SearchActivity::Idle => ""@,
        SearchActivity::Awaiting { spinner_tick } => match spinner_tick % 4 {
            0 => " |"@,
            1 => " /"@,
            2 => " -"@,
            _ => " \\"@,
        },
    }
}

fn spinner_text(activity: SearchActivity) -> (r: &'static str)
    ensures
        r@ == spinner_segment(activity),
{
    match activity {
        SearchActivity::Idle => "",
        SearchActivity::Awaiting { spinner_tick } => match spinner_tick % 4 {
            0 => " |",
            1 => " /",
            2 => " -",
            _ => " \\",
        },
    }
}

// ---------------------------------------------------------------------
// Panes
// ---------------------------------------------------------------------
/// A filter line above a list.
#[derive(Debug)]
pub struct ListPane {
    pub title: String,
    pub filter: String,
    pub items: Vec<TextLine>,
    pub cursor: usize,
    pub focused: bool,
}

/// The title of the Pals pane.
pub open spec fn pals_title(s: AppState) -> Seq<char> {
    if s.progenitors.len() == 0 {
        " Pals "@
    } else {
        " Pals — progenitors: "@ + decimal(s.progenitors.len()) + " "@
    }
}

/// The row of a species: marked, indented beside marks, or bare.
pub open spec fn pal_item(s: AppState, pal: Pal) -> Seq<SpanView> {
    single(
        plain(
            if s.progenitors.contains(pal.name@) {
                "[P] "@ + pal.display_name@
            } else if s.progenitors.len() == 0 {
                pal.display_name@
            } else {
                "    "@ + pal.display_name@
            },
        ),
    )
}

/// The row of a passive, with its mark and its tier.
pub open spec fn skill_item(s: AppState, skill: PassiveSkill) -> Seq<SpanView> {
    seq![
        plain(
            if s.selected.contains(skill.name@) {
                "[x] "@
            } else {
                "[ ] "@
            },
        ),
        SpanView { content: skill.display_name@, tint: rank_tint(skill.rank) },
    ]
}

/// A pane shows the species of a state.
pub open spec fn shows_pals(pane: ListPane, s: AppState, db: PalDb) -> bool {
    &&& pane.title@ == pals_title(s)
    &&& pane.filter@ == "/"@ + s.species_filter
    &&& line_views(pane.items@) == s.pals_shown(db).map_values(|p: Pal| pal_item(s, p))
    &&& pane.cursor == s.species_cursor
    &&& pane.focused == (s.focus == Pane::Pals)
}

/// A pane shows the passives of a state.
pub open spec fn shows_passives(pane: ListPane, s: AppState, db: PalDb) -> bool {
    &&& pane.title@ == " Passives ("@ + decimal(s.selected.len()) + "/4 picked) "@
    &&& pane.filter@ == "/"@ + s.passive_filter
    &&& line_views(pane.items@) == s.skills_shown(db).map_values(
        |p: PassiveSkill| skill_item(s, p),
    )
    &&& pane.cursor == s.passive_cursor
    &&& pane.focused == (s.focus == Pane::Passives)
}

fn filter_line(filter: &str) -> (r: String)
    ensures
        r@ == "/"@ + filter@,
{
    let mut out = "/".to_owned();
    out.append(filter);
    out
}

/// What the Pals pane shows.
pub fn species_pane(app: &App) -> (r: ListPane)
    requires
        app.wf(),
    ensures
        shows_pals(r, app@, app.solver.db()),
{
    let ghost s = app@;
    proof {
        assert(s.progenitors.len() == app.progenitors@.len());
    }
    let title: String = if app.progenitors.len() == 0 {
        " Pals ".to_owned()
    } else {
        let mut text = " Pals — progenitors: ".to_owned();
        text.append(decimal_of(app.progenitors.len() as u128).as_str());
        text.append(" ");
        text
    };
    let rows = app.species_rows();
    let ghost list = referents(rows@);
    let mut items: Vec<TextLine> = Vec::new();
    let mut i: usize = 0;
    while i < rows.len()
        invariant
            s == app@,
            s.progenitors.len() == app.progenitors@.len(),
            list == referents(rows@),
            i <= rows@.len(),
            items@.len() == i,
            forall|j: int| 0 <= j < i ==> (#[trigger] items@[j])@ == pal_item(s, list[j]),
        decreases rows@.len() - i,
    {
        let pal = rows[i];
        proof {
            assert(list[i as int] == *pal);
        }
        let text: String = if holds_pal(&app.progenitors, &pal.name) {
            let mut marked = "[P] ".to_owned();
            marked.append(pal.display_name.as_str());
            marked
        } else if app.progenitors.len() == 0 {
            pal.display_name.clone()
        } else {
            let mut indented = "    ".to_owned();
            indented.append(pal.display_name.as_str());
            indented
        };
        items.push(line_of(text, Tint::Plain));
        i = i + 1;
    }
    proof {
        assert(line_views(items@) =~= list.map_values(|p: Pal| pal_item(s, p)));
    }
    ListPane {
        title,
        filter: filter_line(app.species_filter.as_str()),
        items,
        cursor: app.species_cursor,
        focused: app.focus == Pane::Pals,
    }
}

/// What the Passives pane shows.
pub fn passives_pane(app: &App) -> (r: ListPane)
    requires
        app.wf(),
    ensures
        shows_passives(r, app@, app.solver.db()),
{
    let ghost s = app@;
    proof {
        assert(s.selected.len() == app.selected_passives@.len());
    }
    let mut title = " Passives (".to_owned();
    title.append(decimal_of(app.selected_passives.len() as u128).as_str());
    title.append("/4 picked) ");
    let rows = app.passive_rows();
    let ghost list = referents(rows@);
    let mut items: Vec<TextLine> = Vec::new();
    let mut i: usize = 0;
    while i < rows.len()
        invariant
            s == app@,
            list == referents(rows@),
            i <= rows@.len(),
            items@.len() == i,
            forall|j: int| 0 <= j < i ==> (#[trigger] items@[j])@ == skill_item(s, list[j]),
        decreases rows@.len() - i,
    {
        let skill = rows[i];
        proof {
            assert(list[i as int] == *skill);
        }
        let mark: String = if holds_passive(&app.selected_passives, &skill.name) {
            "[x] ".to_owned()
        } else {
            "[ ] ".to_owned()
        };
        let mut spans: Vec<TextSpan> = Vec::new();
        spans.push(span(mark, Tint::Plain));
        spans.push(span(skill.display_name.clone(), rank_style(skill.rank)));
        let line = TextLine { spans };
        proof {
            assert(line@ =~= skill_item(s, *skill));
        }
        items.push(line);
        i = i + 1;
    }
    proof {
        assert(line_views(items@) =~= list.map_values(|p: PassiveSkill| skill_item(s, p)));
    }
    ListPane {
        title,
        filter: filter_line(app.passive_filter.as_str()),
        items,
        cursor: app.passive_cursor,
        focused: app.focus == Pane::Passives,
    }
}

/// A list above the details of the highlighted entry.
#[derive(Debug)]
pub struct ResultsPane {
    pub title: String,
    pub items: Vec<String>,
    pub cursor: usize,
    pub detail: Vec<TextLine>,
    pub focused: bool,
}

/// Texts as plain values.
pub open spec fn item_views(items: Seq<String>) -> Seq<Seq<char>> {
    items.map_values(|t: String| t@)
}

/// The title of the live plans.
pub open spec fn plans_title(s: AppState, db: PalDb) -> Seq<char> {
    " Plans"@ + spinner_segment(s.activity) + " — "@ + (match s.target {
        Some(name) => shown(db, name),
        None => "no target"@,
    }) + " · depth ≤ "@ + decimal(s.max_steps as nat) + " · wild "@ + (if s.allow_wild {
        "on"@
    } else {
        "off"@
    }) + iv_segment(s.thresholds) + " "@
}

/// The row of a live plan at a position.
pub open spec fn plan_item(plan: PlanView, position: int) -> Seq<char> {
    decimal((position + 1) as nat) + ". "@ + eggs_to_hundredths(plan.expected_eggs as nat)
        + " expected eggs, "@ + decimal(plan.steps as nat) + " step(s)"@
}

/// How many leaves of a saved plan are stale.
pub open spec fn staleness(s: AppState, saved: SavedView) -> int {
    clamped(missing_leaves(saved.tree, s.owned) as int, 0, usize::MAX as int)
}

/// The banner above a saved plan.
pub open spec fn banner(stale: int) -> Seq<SpanView> {
    if stale > 0 {
        single(
            SpanView {
                content: "⚠ "@ + decimal(stale as nat)
                    + " pal(s) no longer in your box — Enter re-plans with the current box"@,
                tint: Tint::Yellow,
            },
        )
    } else {
        single(
            SpanView {
                content: "✓ all pals still available · Enter re-plans with the current box"@,
                tint: Tint::Dim,
            },
        )
    }
}

/// The details of the highlighted saved plan.
pub open spec fn saved_detail(s: AppState, db: PalDb) -> Seq<Seq<SpanView>> {
    if s.saved_cursor < s.saved.len() {
        let saved = s.saved[s.saved_cursor as int];
        seq![banner(staleness(s, saved))] + tree_lines(
            db,
            saved.tree,
            saved.iv_thresholds != no_thresholds(),
            ""@,
            Branch::Root,
        )
    } else {
        seq![single(plain("library empty — F8 saves the highlighted plan"@))]
    }
}

/// The details of the highlighted live plan.
pub open spec fn plan_detail(s: AppState, db: PalDb) -> Seq<Seq<SpanView>> {
    if s.plan_cursor < s.plans.len() {
        tree_lines(
            db,
            s.plans[s.plan_cursor as int].tree,
            s.thresholds != no_thresholds(),
            ""@,
            Branch::Root,
        )
    } else {
        seq![single(plain("run a search (F5) to see plans"@))]
    }
}

/// A pane shows the results of a state: the library, or the live plans.
pub open spec fn shows_results(pane: ResultsPane, s: AppState, db: PalDb) -> bool {
    &&& pane.focused == (s.focus == Pane::Results)
    &&& if s.viewing_saved {
        &&& pane.title@ == " Saved plans ("@ + decimal(s.saved.len()) + ") "@
        &&& item_views(pane.items@) == s.saved.map_values(|p: SavedView| p.label)
        &&& pane.cursor == s.saved_cursor
        &&& line_views(pane.detail@) == saved_detail(s, db)
    } else {
        &&& pane.title@ == plans_title(s, db)
        &&& item_views(pane.items@) == s.plans.map(|i: int, p: PlanView| plan_item(p, i))
        &&& pane.cursor == s.plan_cursor
        &&& line_views(pane.detail@) == plan_detail(s, db)
    }
}

fn one_line(text: &str) -> (r: Vec<TextLine>)
    ensures
        line_views(r@) == seq![single(plain(text@))],
{
    let mut out: Vec<TextLine> = Vec::new();
    out.push(line_of(text.to_owned(), Tint::Plain));
    proof {
        assert(line_views(out@) =~= seq![single(plain(text@))]);
    }
    out
}

fn banner_line(stale: usize) -> (r: TextLine)
    ensures
        r@ == banner(stale as int),
{
    if stale > 0 {
        let mut text = "⚠ ".to_owned();
        text.append(decimal_of(stale as u128).as_str());
        text.append(" pal(s) no longer in your box — Enter re-plans with the current box");
        line_of(text, Tint::Yellow)
    } else {
        line_of(
            "✓ all pals still available · Enter re-plans with the current box".to_owned(),
            Tint::Dim,
        )
    }
}

fn library_pane(app: &App) -> (r: ResultsPane)
    requires
        app.wf(),
        app.viewing_saved,
    ensures
        shows_results(r, app@, app.solver.db()),
{
    let ghost s = app@;
    let db = app.db();
    let count: usize = app.saved.plans.len();
    let mut title = " Saved plans (".to_owned();
    title.append(decimal_of(count as u128).as_str());
    title.append(") ");
    let mut items: Vec<String> = Vec::new();
    let mut i: usize = 0;
    while i < app.saved.plans.len()
        invariant
            i <= app.saved.plans@.len(),
            items@.len() == i,
            forall|j: int| 0 <= j < i ==> (#[trigger] items@[j])@ == app.saved.plans@[j]@.label,
        decreases app.saved.plans@.len() - i,
    {
        items.push(app.saved.plans[i].label.clone());
        i = i + 1;
    }
    proof {
        assert(s.saved.len() == app.saved.plans@.len());
        assert(item_views(items@) =~= s.saved.map_values(|p: SavedView| p.label));
    }
    let detail: Vec<TextLine> = if app.saved_cursor < count {
        let saved = &app.saved.plans[app.saved_cursor];
        proof {
            assert(s.saved[app.saved_cursor as int] == saved@);
        }
        let mut lines: Vec<TextLine> = Vec::new();
        lines.push(banner_line(app.stale_leaves(saved)));
        let ghost head = line_views(lines@);
        let mut tree = plan_tree(db, &saved.root, !saved.goal_iv_thresholds.is_empty());
        let ghost rest = line_views(tree@);
        lines.append(&mut tree);
        proof {
            assert(head =~= seq![banner(staleness(s, saved@))]);
            assert(line_views(lines@) =~= head + rest);
        }
        lines
    } else {
        one_line("library empty — F8 saves the highlighted plan")
    };
    ResultsPane {
        title,
        items,
        cursor: app.saved_cursor,
        detail,
        focused: app.focus == Pane::Results,
    }
}

fn live_pane(app: &App) -> (r: ResultsPane)
    requires
        app.wf(),
        !app.viewing_saved,
    ensures
        shows_results(r, app@, app.solver.db()),
{
    let ghost s = app@;
    let db = app.db();
    let mut title = " Plans".to_owned();
    title.append(spinner_text(app.activity));
    title.append(" — ");
    match &app.target {
        Some(name) => {
            title.append(display(db, name));
        },
        None => {
            title.append("no target");
        },
    }
    title.append(" · depth ≤ ");
    title.append(decimal_of(app.max_breeding_steps as u128).as_str());
    title.append(" · wild ");
    title.append(
        if app.allow_wild {
            "on"
        } else {
            "off"
        },
    );
    title.append(iv_title(app.iv_thresholds).as_str());
    title.append(" ");
    let mut items: Vec<String> = Vec::new();
    let mut i: usize = 0;
    while i < app.plans.len()
        invariant
            i <= app.plans@.len(),
            items@.len() == i,
            forall|j: int| 0 <= j < i ==> (#[trigger] items@[j])@ == plan_item(app.plans@[j]@, j),
        decreases app.plans@.len() - i,
    {
        let plan = &app.plans[i];
        let mut text = decimal_of(i as u128 + 1);
        text.append(". ");
        text.append(hundredths_text(plan.expected_eggs).as_str());
        text.append(" expected eggs, ");
        text.append(decimal_of(plan.steps as u128).as_str());
        text.append(" step(s)");
        items.push(text);
        i = i + 1;
    }
    proof {
        assert(s.plans.len() == app.plans@.len());
        assert(item_views(items@) =~= s.plans.map(|i: int, p: PlanView| plan_item(p, i)));
    }
    let detail: Vec<TextLine> = if app.plan_cursor < app.plans.len() {
        let plan = &app.plans[app.plan_cursor];
        proof {
            assert(s.plans[app.plan_cursor as int] == plan@);
        }
        plan_tree(db, &plan.root, !app.iv_thresholds.is_empty())
    } else {
        one_line("run a search (F5) to see plans")
    };
    ResultsPane {
        title,
        items,
        cursor: app.plan_cursor,
        detail,
        focused: app.focus == Pane::Results,
    }
}

/// What the Plans pane shows: the library, or the live plans.
pub fn results_pane(app: &App) -> (r: ResultsPane)
    requires
        app.wf(),
    ensures
        shows_results(r, app@, app.solver.db()),
{
    if app.viewing_saved {
        library_pane(app)
    } else {
        live_pane(app)
    }
}

/// The bottom line: while the prompt is open it shows the buffer with a
/// block cursor in place of the status text.
pub open spec fn bottom_line(s: AppState) -> Seq<SpanView> {
    match s.layer {
        Layer::Prompt(buffer) => seq![
            plain(":"@ + buffer),
            SpanView { content: " "@, tint: Tint::Reversed },
        ],
        _ => single(plain(s.status)),
    }
}

/// What the bottom line shows.
pub fn status_line(app: &App) -> (r: TextLine)
    ensures
        r@ == bottom_line(app@),
{
    match &app.overlay {
        Overlay::Prompt(buffer) => {
            let mut text = ":".to_owned();
            text.append(buffer.as_str());
            let mut spans: Vec<TextSpan> = Vec::new();
            spans.push(span(text, Tint::Plain));
            spans.push(span(" ".to_owned(), Tint::Reversed));
            let r = TextLine { spans };
            proof {
                assert(r@ =~= bottom_line(app@));
            }
            r
        },
        _ => line_of(app.status.clone(), Tint::Plain),
    }
}

} // verus!
