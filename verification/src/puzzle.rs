//! What a puzzle is made of.
//!
//! The answer is always the option with the best mean placement. Means are shown, never
//! win rates.

use crate::order::models;
use crate::text::views;
use vstd::prelude::*;

verus! {

/// The kinds of puzzle.
#[derive(Debug, Clone, Copy, PartialEq, Eq, Structural)]
pub enum PuzzleKind {
    /// Which augment did best on this board?
    AugmentPick,
    /// Which unit is hidden?
    BoardComplete,
    /// Which items go together?
    ItemCombine,
}

impl PuzzleKind {
    /// The name under which the kind is stored.
    pub open spec fn name(self) -> Seq<char> {
        match self {
            PuzzleKind::AugmentPick => "augment_pick"@,
            PuzzleKind::BoardComplete => "board_complete"@,
            PuzzleKind::ItemCombine => "item_combine"@,
        }
    }

    /// The name under which the kind is stored.
    pub fn as_str(self) -> (r: &'static str)
        ensures
            r@ == self.name(),
    {
        match self {
            PuzzleKind::AugmentPick => "augment_pick",
            PuzzleKind::BoardComplete => "board_complete",
            PuzzleKind::ItemCombine => "item_combine",
        }
    }
}

/// The situation that a puzzle shows.
#[derive(Debug)]
pub struct Prompt {
    pub question: String,
    pub context: BoardContext,
}

/// What is shown of a final board.
#[derive(Debug)]
pub struct BoardContext {
    pub level: i32,
    pub last_round: i32,
    /// The placement that the board really reached.
    pub placement: i32,
    pub traits: Vec<TraitView>,
    pub units: Vec<UnitView>,
    /// Augments that were picked along with the one asked for.
    pub prior_augments: Vec<NamedRef>,
}

#[derive(Debug)]
pub struct TraitView {
    pub id: String,
    pub name: String,
    pub tier_current: i32,
}

#[derive(Debug)]
pub struct UnitView {
    pub id: String,
    pub name: String,
    pub cost: i32,
    /// 1 to 3.
    pub star: i32,
    pub items: Vec<NamedRef>,
}

/// An id with the name that people know it by.
#[derive(Debug)]
pub struct NamedRef {
    pub id: String,
    pub name: String,
}

impl NamedRef {
    pub fn copy(&self) -> (r: NamedRef)
        ensures
            r@ == self@,
    {
        NamedRef { id: self.id.clone(), name: self.name.clone() }
    }
}

/// One of the options of a puzzle.
#[derive(Debug)]
pub struct OptionItem {
    pub id: String,
    pub name: String,
    pub icon: String,
}

/// What is told after the answer.
#[derive(Debug)]
pub struct Stats {
    pub options: Vec<OptionStat>,
    pub source_match_id: String,
}

#[derive(Debug)]
pub struct OptionStat {
    pub id: String,
    /// Mean placement of the games with this option, in hundredths. Lower is better.
    pub avg_placement: i64,
    /// How many games the mean is taken over.
    pub sample_size: i64,
    /// Whether the player of the board picked this option.
    pub was_actual_pick: bool,
}

/// The situation of an item puzzle.
#[derive(Debug)]
pub struct ItemPrompt {
    pub question: String,
    pub carry: NamedRef,
    pub context_traits: Vec<String>,
    pub patch: String,
}

/// An item among the options, with what is told after the answer.
#[derive(Debug)]
pub struct ItemOptionStat {
    pub id: String,
    pub name: String,
    /// Mean placement of the carry with this item, in hundredths, where there is one.
    pub avg_placement: Option<i64>,
    pub sample_size: i64,
    /// Whether this is the answer.
    pub is_best: bool,
}

// ---------------------------------------------------------------- what they say

pub struct TraitViewModel {
    pub id: Seq<char>,
    pub name: Seq<char>,
    pub tier_current: i32,
}

pub struct NamedModel {
    pub id: Seq<char>,
    pub name: Seq<char>,
}

pub struct UnitViewModel {
    pub id: Seq<char>,
    pub name: Seq<char>,
    pub cost: i32,
    pub star: i32,
    pub items: Seq<NamedModel>,
}

pub struct ContextModel {
    pub level: i32,
    pub last_round: i32,
    pub placement: i32,
    pub traits: Seq<TraitViewModel>,
    pub units: Seq<UnitViewModel>,
    pub prior_augments: Seq<NamedModel>,
}

pub struct PromptModel {
    pub question: Seq<char>,
    pub context: ContextModel,
}

pub struct OptionModel {
    pub id: Seq<char>,
    pub name: Seq<char>,
    pub icon: Seq<char>,
}

pub struct OptionStatModel {
    pub id: Seq<char>,
    pub avg_placement: i64,
    pub sample_size: i64,
    pub was_actual_pick: bool,
}

pub struct StatsModel {
    pub options: Seq<OptionStatModel>,
    pub source_match_id: Seq<char>,
}

pub struct ItemPromptModel {
    pub question: Seq<char>,
    pub carry: NamedModel,
    pub context_traits: Seq<Seq<char>>,
    pub patch: Seq<char>,
}

pub struct ItemOptionStatModel {
    pub id: Seq<char>,
    pub name: Seq<char>,
    pub avg_placement: Option<i64>,
    pub sample_size: i64,
    pub is_best: bool,
}

impl View for TraitView {
    type V = TraitViewModel;

    open spec fn view(&self) -> TraitViewModel {
        TraitViewModel { id: self.id@, name: self.name@, tier_current: self.tier_current }
    }
}

impl View for NamedRef {
    type V = NamedModel;

    open spec fn view(&self) -> NamedModel {
        NamedModel { id: self.id@, name: self.name@ }
    }
}

impl View for UnitView {
    type V = UnitViewModel;

    open spec fn view(&self) -> UnitViewModel {
        UnitViewModel {
            id: self.id@,
            name: self.name@,
            cost: self.cost,
            star: self.star,
            items: models(self.items@),
        }
    }
}

impl View for BoardContext {
    type V = ContextModel;

    open spec fn view(&self) -> ContextModel {
        ContextModel {
            level: self.level,
            last_round: self.last_round,
            placement: self.placement,
            traits: models(self.traits@),
            units: models(self.units@),
            prior_augments: models(self.prior_augments@),
        }
    }
}

impl View for Prompt {
    type V = PromptModel;

    open spec fn view(&self) -> PromptModel {
        PromptModel { question: self.question@, context: self.context@ }
    }
}

impl View for OptionItem {
    type V = OptionModel;

    open spec fn view(&self) -> OptionModel {
        OptionModel { id: self.id@, name: self.name@, icon: self.icon@ }
    }
}

impl View for OptionStat {
    type V = OptionStatModel;

    open spec fn view(&self) -> OptionStatModel {
        OptionStatModel {
            id: self.id@,
            avg_placement: self.avg_placement,
            sample_size: self.sample_size,
            was_actual_pick: self.was_actual_pick,
        }
    }
}

impl View for Stats {
    type V = StatsModel;

    open spec fn view(&self) -> StatsModel {
        StatsModel {
            options: models(self.options@),
            source_match_id: self.source_match_id@,
        }
    }
}

impl View for ItemPrompt {
    type V = ItemPromptModel;

    open spec fn view(&self) -> ItemPromptModel {
        ItemPromptModel {
            question: self.question@,
            carry: self.carry@,
            context_traits: views(self.context_traits@),
            patch: self.patch@,
        }
    }
}

impl View for ItemOptionStat {
    type V = ItemOptionStatModel;

    open spec fn view(&self) -> ItemOptionStatModel {
        ItemOptionStatModel {
            id: self.id@,
            name: self.name@,
            avg_placement: self.avg_placement,
            sample_size: self.sample_size,
            is_best: self.is_best,
        }
    }
}

/// The kinds of puzzles are stored under these names.
pub proof fn lemma_kind_names()
    ensures
        PuzzleKind::AugmentPick.name() == "augment_pick"@,
        PuzzleKind::BoardComplete.name() == "board_complete"@,
        PuzzleKind::ItemCombine.name() == "item_combine"@,
{
}

/// What is shown of a board is what the fields say.
pub proof fn lemma_board_as_shown(p: Prompt, c: BoardContext, t: TraitView, u: UnitView, n: NamedRef)
    ensures
        p@.question == p.question@,
        p@.context == p.context@,
        c@.level == c.level,
        c@.last_round == c.last_round,
        c@.placement == c.placement,
        c@.traits == models(c.traits@),
        c@.units == models(c.units@),
        c@.prior_augments == models(c.prior_augments@),
        t@.id == t.id@,
        t@.name == t.name@,
        t@.tier_current == t.tier_current,
        u@.id == u.id@,
        u@.name == u.name@,
        u@.cost == u.cost,
        u@.star == u.star,
        u@.items == models(u.items@),
        n@.id == n.id@,
        n@.name == n.name@,
{
}

/// What is told of options is what the fields say.
pub proof fn lemma_options_as_told(
    o: OptionItem,
    s: Stats,
    x: OptionStat,
    p: ItemPrompt,
    i: ItemOptionStat,
)
    ensures
        o@.id == o.id@,
        o@.name == o.name@,
        o@.icon == o.icon@,
        s@.options == models(s.options@),
        s@.source_match_id == s.source_match_id@,
        x@.id == x.id@,
        x@.avg_placement == x.avg_placement,
        x@.sample_size == x.sample_size,
        x@.was_actual_pick == x.was_actual_pick,
        p@.question == p.question@,
        p@.carry == p.carry@,
        p@.context_traits == views(p.context_traits@),
        p@.patch == p.patch@,
        i@.id == i.id@,
        i@.name == i.name@,
        i@.avg_placement == i.avg_placement,
        i@.sample_size == i.sample_size,
        i@.is_best == i.is_best,
{
}

}
