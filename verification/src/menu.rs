//! The menu: a list of entries, one of them selected, and a marker beside
//! the selected one.

use vstd::prelude::*;
use crate::geometry::{Point2D, Rect, Size2D};
use crate::graphics::{
    pallet,
    pallet_color,
    Bounds,
    Entity,
    Owner,
    SimpleSprite,
    TextBox,
    TileKey,
};
use crate::input::{Input, InputStream};
use crate::renderer::{Color, Pixels};
use crate::scene::AppState;

verus! {

/// The distance from one entry to the next, and the step of the marker.
pub const ENTRY_STEP: i32 = 10;

/// The distance of the entries from the left edge of the menu.
pub const ENTRY_INDENT: i32 = 5;

/// The colour of the selected entry and of the marker.
pub open spec fn selected_color() -> Color {
    pallet(3)
}

/// The colour of the entries that are not selected.
pub open spec fn dim_color() -> Color {
    pallet(1)
}

/// A menu: which entry is selected, the text box and the target of each
/// entry, and the marker.
pub struct Menu {
    pub pos: usize,
    /// For each entry, the place of its text box among the text boxes, and
    /// the screen that it leads to.
    pub entries: Vec<(usize, AppState)>,
    /// The place of the marker among the sprites.
    pub marker: usize,
}

/// The entry that is selected after `inputs`, from the entry `pos` of
/// `count`: `Up` and `Down` move the selection by one, no further than the
/// first and the last entry, until `Primary` picks the selected entry.
pub open spec fn menu_walk(pos: int, count: int, inputs: Seq<Input>) -> (int, bool)
    decreases inputs.len(),
{
    if inputs.len() == 0 {
        (pos, false)
    } else {
        let (before, picked) = menu_walk(pos, count, inputs.drop_last());
        if picked {
            (before, true)
        } else {
            match inputs.last() {
                Input::Primary => (before, true),
                Input::Up => (
                    if before > 0 {
                        before - 1
                    } else {
                        before
                    },
                    false,
                ),
                Input::Down => (
                    if before < count - 1 {
                        before + 1
                    } else {
                        before
                    },
                    false,
                ),
                _ => (before, false),
            }
        }
    }
}

impl Menu {
    /// The menu fits the text boxes: it has an entry, the selected entry is
    /// one of them, each entry has a text box of its own, the selected one
    /// in the selected colour and the others dim.
    pub open spec fn wf(&self, text_boxes: Seq<Entity<TextBox>>) -> bool {
        &&& 0 < self.entries@.len()
        &&& self.pos < self.entries@.len()
        &&& forall|i: int| 0 <= i < self.entries@.len() ==> (#[trigger] self.entries@[i]).0 < text_boxes.len()
        &&& forall|i: int, j: int|
            0 <= i < j < self.entries@.len() ==> (#[trigger] self.entries@[i]).0 != (
            #[trigger] self.entries@[j]).0
        &&& forall|i: int|
            0 <= i < self.entries@.len() ==> text_boxes[(#[trigger] self.entries@[i]).0 as int].sprite.color
                == (if i == self.pos {
                selected_color()
            } else {
                dim_color()
            })
    }

    /// The marker has room to follow the selection to every entry.
    pub open spec fn has_room(&self, marker_bounds: Bounds) -> bool {
        &&& i32::MIN <= marker_bounds.0.origin.y - ENTRY_STEP * self.pos
        &&& marker_bounds.0.origin.y + ENTRY_STEP * (self.entries@.len() - 1 - self.pos)
            <= i32::MAX
    }

    pub fn new(entries: Vec<(usize, AppState)>, marker: usize) -> (m: Self)
        requires
            entries@.len() > 0,
        ensures
            m.pos == 0,
            m.entries == entries,
            m.marker == marker,
    {
        Menu { pos: 0, entries, marker }
    }

    /// The screen that the selected entry leads to.
    pub fn current_app_state(&self) -> (s: AppState)
        requires
            self.pos < self.entries@.len(),
        ensures
            s == self.entries@[self.pos as int].1,
    {
        self.entries[self.pos].1
    }

    /// Sets the colour of the text box of the selected entry.
    fn color_current(&self, text_boxes: &mut Vec<Entity<TextBox>>, color: Color)
        requires
            self.pos < self.entries@.len(),
            self.entries@[self.pos as int].0 < old(text_boxes)@.len(),
        ensures
            final(text_boxes)@.len() == old(text_boxes)@.len(),
            forall|i: int|
                0 <= i < old(text_boxes)@.len() && i != self.entries@[self.pos as int].0
                    ==> final(text_boxes)@[i] == old(text_boxes)@[i],
            final(text_boxes)@[self.entries@[self.pos as int].0 as int].sprite.color == color,
            final(text_boxes)@[self.entries@[self.pos as int].0 as int].sprite.text == old(text_boxes)@[self.entries@[self.pos as int].0 as int].sprite.text,
            final(text_boxes)@[self.entries@[self.pos as int].0 as int].bounds == old(text_boxes)@[self.entries@[self.pos as int].0 as int].bounds,
            final(text_boxes)@[self.entries@[self.pos as int].0 as int].owner == old(text_boxes)@[self.entries@[self.pos as int].0 as int].owner,
    {
        let at = self.entries[self.pos].0;
        text_boxes[at].sprite.color = color;
    }

    /// Moves the selection one entry up, unless the first is selected.
    pub fn up(&mut self, marker_bounds: &mut Bounds, text_boxes: &mut Vec<Entity<TextBox>>)
        requires
            old(self).wf(old(text_boxes)@),
            old(self).has_room(*old(marker_bounds)),
        ensures
            final(self).wf(final(text_boxes)@),
            final(self).has_room(*final(marker_bounds)),
            final(self).entries == old(self).entries,
            final(self).marker == old(self).marker,
            final(self).pos == (if old(self).pos > 0 {
                old(self).pos - 1
            } else {
                old(self).pos as int
            }),
            final(marker_bounds).0.origin.y == old(marker_bounds).0.origin.y - ENTRY_STEP * (old(self).pos - final(self).pos),
            final(marker_bounds).0.origin.x == old(marker_bounds).0.origin.x,
            final(marker_bounds).0.size == old(marker_bounds).0.size,
            final(text_boxes)@ == recolored(old(text_boxes)@, old(self).entries@, final(self).pos as int),
    {
        if self.pos > 0 {
            assert(self.entries@[self.pos as int].0 < text_boxes@.len());
            assert(self.entries@[self.pos as int - 1].0 < text_boxes@.len());
            self.color_current(text_boxes, pallet_color(1));
            self.pos = self.pos - 1;
            self.color_current(text_boxes, pallet_color(3));
            marker_bounds.0.origin.y = marker_bounds.0.origin.y - ENTRY_STEP;
        }
        proof {
            assert(is_entry_box(self.entries@, self.entries@[old(self).pos as int].0 as int));
            assert(is_entry_box(self.entries@, self.entries@[self.pos as int].0 as int));
            lemma_recolored(old(text_boxes)@, text_boxes@, *self);
        }
    }

    /// Moves the selection one entry down, unless the last is selected.
    pub fn down(&mut self, marker_bounds: &mut Bounds, text_boxes: &mut Vec<Entity<TextBox>>)
        requires
            old(self).wf(old(text_boxes)@),
            old(self).has_room(*old(marker_bounds)),
        ensures
            final(self).wf(final(text_boxes)@),
            final(self).has_room(*final(marker_bounds)),
            final(self).entries == old(self).entries,
            final(self).marker == old(self).marker,
            final(self).pos == (if old(self).pos < old(self).entries@.len() - 1 {
                old(self).pos + 1
            } else {
                old(self).pos as int
            }),
            final(marker_bounds).0.origin.y == old(marker_bounds).0.origin.y + ENTRY_STEP * (final(self).pos - old(self).pos),
            final(marker_bounds).0.origin.x == old(marker_bounds).0.origin.x,
            final(marker_bounds).0.size == old(marker_bounds).0.size,
            final(text_boxes)@ == recolored(old(text_boxes)@, old(self).entries@, final(self).pos as int),
    {
        if self.pos < self.entries.len() - 1 {
            assert(self.entries@[self.pos as int].0 < text_boxes@.len());
            assert(self.entries@[self.pos as int + 1].0 < text_boxes@.len());
            self.color_current(text_boxes, pallet_color(1));
            self.pos = self.pos + 1;
            self.color_current(text_boxes, pallet_color(3));
            marker_bounds.0.origin.y = marker_bounds.0.origin.y + ENTRY_STEP;
        }
        proof {
            assert(is_entry_box(self.entries@, self.entries@[old(self).pos as int].0 as int));
            assert(is_entry_box(self.entries@, self.entries@[self.pos as int].0 as int));
            lemma_recolored(old(text_boxes)@, text_boxes@, *self);
        }
    }

    /// Takes every input that waits in the stream: `Up` and `Down` move
    /// the selection, until `Primary` picks the selected entry. Returns the
    /// screen that the picked entry leads to, if one was picked.
    pub fn update(
        &mut self,
        marker_bounds: &mut Bounds,
        text_boxes: &mut Vec<Entity<TextBox>>,
        input_stream: &mut InputStream,
    ) -> (target: Option<AppState>)
        requires
            old(self).wf(old(text_boxes)@),
            old(self).has_room(*old(marker_bounds)),
        ensures
            final(self).wf(final(text_boxes)@),
            final(self).has_room(*final(marker_bounds)),
            final(self).entries == old(self).entries,
            final(self).marker == old(self).marker,
            final(input_stream)@.len() == 0,
            final(self).pos == menu_walk(
                old(self).pos as int,
                old(self).entries@.len() as int,
                old(input_stream)@,
            ).0,
            target == (if menu_walk(
                old(self).pos as int,
                old(self).entries@.len() as int,
                old(input_stream)@,
            ).1 {
                Some(final(self).entries@[final(self).pos as int].1)
            } else {
                None
            }),
            final(marker_bounds).0.origin.y == old(marker_bounds).0.origin.y + ENTRY_STEP * (final(self).pos - old(self).pos),
            final(marker_bounds).0.origin.x == old(marker_bounds).0.origin.x,
            final(marker_bounds).0.size == old(marker_bounds).0.size,
            final(text_boxes)@ == recolored(old(text_boxes)@, old(self).entries@, final(self).pos as int),
    {
        let ghost all = input_stream@;
        let ghost mut taken: int = 0;
        let mut target: Option<AppState> = None;
        loop
            invariant
                0 <= taken <= all.len(),
                input_stream@ == all.subrange(taken, all.len() as int),
                self.wf(text_boxes@),
                self.has_room(*marker_bounds),
                self.entries == old(self).entries,
                self.marker == old(self).marker,
                self.pos == menu_walk(
                    old(self).pos as int,
                    old(self).entries@.len() as int,
                    all.subrange(0, taken),
                ).0,
                target == (if menu_walk(
                    old(self).pos as int,
                    old(self).entries@.len() as int,
                    all.subrange(0, taken),
                ).1 {
                    Some(self.entries@[self.pos as int].1)
                } else {
                    None
                }),
                marker_bounds.0.origin.y == old(marker_bounds).0.origin.y + ENTRY_STEP * (self.pos
                    - old(self).pos),
                marker_bounds.0.origin.x == old(marker_bounds).0.origin.x,
                marker_bounds.0.size == old(marker_bounds).0.size,
                only_entry_colors(old(text_boxes)@, text_boxes@, self.entries@),
            ensures
                taken == all.len(),
                input_stream@.len() == 0,
                self.wf(text_boxes@),
                self.has_room(*marker_bounds),
                self.entries == old(self).entries,
                self.marker == old(self).marker,
                self.pos == menu_walk(
                    old(self).pos as int,
                    old(self).entries@.len() as int,
                    all,
                ).0,
                target == (if menu_walk(
                    old(self).pos as int,
                    old(self).entries@.len() as int,
                    all,
                ).1 {
                    Some(self.entries@[self.pos as int].1)
                } else {
                    None
                }),
                marker_bounds.0.origin.y == old(marker_bounds).0.origin.y + ENTRY_STEP * (self.pos
                    - old(self).pos),
                marker_bounds.0.origin.x == old(marker_bounds).0.origin.x,
                marker_bounds.0.size == old(marker_bounds).0.size,
                only_entry_colors(old(text_boxes)@, text_boxes@, self.entries@),
            decreases all.len() - taken,
        {
            let ghost boxes_before = text_boxes@;
            match input_stream.get() {
                None => {
                    proof {
                        assert(all.subrange(0, taken) =~= all);
                    }
                    break ;
                },
                Some(i) => {
                    proof {
                        assert(all.subrange(0, taken + 1).drop_last() =~= all.subrange(0, taken));
                        assert(all.subrange(0, taken + 1).last() == i);
                        assert(input_stream@ =~= all.subrange(taken + 1, all.len() as int));
                    }
                    if target.is_none() {
                        match i {
                            Input::Primary => {
                                target = Some(self.current_app_state());
                            },
                            Input::Up => self.up(marker_bounds, text_boxes),
                            Input::Down => self.down(marker_bounds, text_boxes),
                            _ => {},
                        }
                    }
                    proof {
                        lemma_only_entry_colors(
                            old(text_boxes)@,
                            boxes_before,
                            text_boxes@,
                            self.entries@,
                            self.pos as int,
                        );
                    }
                    proof {
                        taken = taken + 1;
                    }
                },
            }
        }
        proof {
            lemma_recolored(old(text_boxes)@, text_boxes@, *self);
        }
        target
    }

    /// Puts up a menu at `pos`: a text box for each of `items`, one below
    /// the other, the first one selected, and the marker beside the first.
    /// Returns the menu.
    pub fn spawn(
        pos: Point2D<Pixels>,
        items: &Vec<(String, AppState)>,
        text_boxes: &mut Vec<Entity<TextBox>>,
        sprites: &mut Vec<Entity<SimpleSprite>>,
    ) -> (menu: Menu)
        requires
            0 < items@.len(),
            pos.x + ENTRY_INDENT <= i32::MAX,
            pos.y + ENTRY_STEP * items@.len() <= i32::MAX,
        ensures
            menu.wf(final(text_boxes)@),
            menu.pos == 0,
            menu.entries@.len() == items@.len(),
            final(text_boxes)@.len() == old(text_boxes)@.len() + items@.len(),
            final(text_boxes)@.subrange(0, old(text_boxes)@.len() as int) == old(text_boxes)@,
            forall|i: int|
                0 <= i < items@.len() ==> {
                    &&& (#[trigger] menu.entries@[i]).0 == old(text_boxes)@.len() + i
                    &&& menu.entries@[i].1 == items@[i].1
                    &&& is_entry(
                        final(text_boxes)@[old(text_boxes)@.len() + i],
                        pos,
                        i,
                        items@[i].0@,
                    )
                },
            final(sprites)@ == old(sprites)@.push(marker_at(pos)),
            menu.marker == old(sprites)@.len(),
            menu.has_room(marker_at(pos).bounds),
    {
        let menu_pos = pos;
        let mut text_pos = menu_pos;
        text_pos.x = text_pos.x + ENTRY_INDENT;
        let first = text_boxes.len();
        let mut entries: Vec<(usize, AppState)> = Vec::new();
        let mut n: usize = 0;
        while n < items.len()
            invariant
                n <= items@.len(),
                0 < items@.len(),
                pos.x + ENTRY_INDENT <= i32::MAX,
                pos.y + ENTRY_STEP * items@.len() <= i32::MAX,
                first == old(text_boxes)@.len(),
                text_boxes@.len() == first + n,
                text_boxes@.subrange(0, first as int) == old(text_boxes)@,
                entries@.len() == n,
                text_pos.x == pos.x + ENTRY_INDENT,
                text_pos.y == pos.y + ENTRY_STEP * n,
                forall|i: int|
                    0 <= i < n ==> {
                        &&& (#[trigger] entries@[i]).0 == first + i
                        &&& entries@[i].1 == items@[i].1
                        &&& is_entry(text_boxes@[first + i], pos, i, items@[i].0@)
                    },
            decreases items@.len() - n,
        {
            let color = if n == 0 {
                pallet_color(3)
            } else {
                pallet_color(1)
            };
            let (text_box, bounds) = TextBox::spawn(items[n].0.clone(), text_pos, color);
            let ghost before = text_boxes@;
            let ghost entries_before = entries@;
            let at = text_boxes.len();
            text_boxes.push(Entity { bounds, sprite: text_box, owner: Owner::OnMenu });
            entries.push((at, items[n].1));
            text_pos.y = text_pos.y + ENTRY_STEP;
            proof {
                assert(text_boxes@.subrange(0, first as int) =~= before.subrange(0, first as int));
                assert forall|i: int| 0 <= i < n + 1 implies {
                    &&& (#[trigger] entries@[i]).0 == first + i
                    &&& entries@[i].1 == items@[i].1
                    &&& is_entry(text_boxes@[first + i], pos, i, items@[i].0@)
                } by {
                    if i < n {
                        assert(entries@[i] == entries_before[i]);
                        assert(text_boxes@[first + i] == before[first + i]);
                    } else {
                        assert(text_boxes@[first + i].sprite.text@ == items@[i].0@);
                        assert(text_boxes@[first + i].bounds.0.origin.x == pos.x + ENTRY_INDENT);
                        assert(text_boxes@[first + i].bounds.0.origin.y == pos.y + ENTRY_STEP * i);
                    }
                }
            }
            n = n + 1;
        }
        proof {
            assert forall|i: int| 0 <= i < entries@.len() implies text_boxes@[(
            #[trigger] entries@[i]).0 as int].sprite.color == (if i == 0 {
                selected_color()
            } else {
                dim_color()
            }) by {
                assert(is_entry(text_boxes@[first + i], pos, i, items@[i].0@));
            }
        }
        let marker = sprites.len();
        sprites.push(
            Entity {
                bounds: Bounds(Rect::new(menu_pos, Size2D::new(10, 10))),
                sprite: SimpleSprite { tile: TileKey::Char('>'), color: pallet_color(3) },
                owner: Owner::OnMenu,
            },
        );
        Menu::new(entries, marker)
    }
}

/// Whether the text box at place `i` is the text box of an entry.
pub open spec fn is_entry_box(entries: Seq<(usize, AppState)>, i: int) -> bool {
    exists|k: int| 0 <= k < entries.len() && (#[trigger] entries[k]).0 == i
}

/// The entry whose text box stands at place `i`.
pub open spec fn entry_at(entries: Seq<(usize, AppState)>, i: int) -> int {
    choose|k: int| 0 <= k < entries.len() && (#[trigger] entries[k]).0 == i
}

/// The text boxes `before` as a menu with the entries `entries` shows them
/// when entry `pos` is selected: the text box of the selected entry in the
/// selected colour, those of the other entries dim, and every other text
/// box as it was.
pub open spec fn recolored(
    before: Seq<Entity<TextBox>>,
    entries: Seq<(usize, AppState)>,
    pos: int,
) -> Seq<Entity<TextBox>> {
    Seq::new(
        before.len(),
        |i: int|
            if is_entry_box(entries, i) {
                Entity {
                    bounds: before[i].bounds,
                    sprite: TextBox {
                        text: before[i].sprite.text,
                        color: if entry_at(entries, i) == pos {
                            selected_color()
                        } else {
                            dim_color()
                        },
                    },
                    owner: before[i].owner,
                }
            } else {
                before[i]
            },
    )
}

/// Whether `after` are the text boxes `before` with, at most, other
/// colours for the text boxes of the entries: the same texts at the same
/// places, of the same owners, and every text box that is no entry's as it
/// was.
pub open spec fn only_entry_colors(
    before: Seq<Entity<TextBox>>,
    after: Seq<Entity<TextBox>>,
    entries: Seq<(usize, AppState)>,
) -> bool {
    &&& after.len() == before.len()
    &&& forall|i: int|
        0 <= i < before.len() ==> (#[trigger] after[i]).bounds == before[i].bounds && after[i].owner
            == before[i].owner && after[i].sprite.text == before[i].sprite.text
    &&& forall|i: int|
        0 <= i < before.len() && !is_entry_box(entries, i) ==> #[trigger] after[i] == before[i]
}

/// Text boxes that a menu has shown anew, or left alone, after they had
/// changed in the colours of the entries only, have still changed in the
/// colours of the entries only.
pub proof fn lemma_only_entry_colors(
    first: Seq<Entity<TextBox>>,
    before: Seq<Entity<TextBox>>,
    after: Seq<Entity<TextBox>>,
    entries: Seq<(usize, AppState)>,
    pos: int,
)
    requires
        only_entry_colors(first, before, entries),
        after == before || after == recolored(before, entries, pos),
    ensures
        only_entry_colors(first, after, entries),
{
    assert forall|i: int| 0 <= i < first.len() implies (#[trigger] after[i]).bounds
        == first[i].bounds && after[i].owner == first[i].owner && after[i].sprite.text
        == first[i].sprite.text by {
        assert(before[i].bounds == first[i].bounds);
    }
    assert forall|i: int| 0 <= i < first.len() && !is_entry_box(entries, i) implies
        #[trigger] after[i] == first[i] by {
        assert(before[i] == first[i]);
    }
}

/// Text boxes that differ from others in the colours of the entries only,
/// and fit a menu, are the others as the menu shows them.
pub proof fn lemma_recolored(before: Seq<Entity<TextBox>>, after: Seq<Entity<TextBox>>, menu: Menu)
    requires
        only_entry_colors(before, after, menu.entries@),
        menu.wf(after),
    ensures
        after == recolored(before, menu.entries@, menu.pos as int),
{
    let shown = recolored(before, menu.entries@, menu.pos as int);
    assert forall|i: int| 0 <= i < after.len() implies after[i] == shown[i] by {
        if is_entry_box(menu.entries@, i) {
            let k = entry_at(menu.entries@, i);
            assert(menu.entries@[k].0 == i);
            assert(after[menu.entries@[k].0 as int].sprite.color == (if k == menu.pos {
                selected_color()
            } else {
                dim_color()
            }));
        }
    }
    assert(after =~= shown);
}

/// Whether `entity` is entry `i` of a menu at `pos` with the text `text`:
/// indented, `i` steps below the top, a hundred by ten pixels, selected if
/// it is the first and dim if not, and owned by the menu.
pub open spec fn is_entry(
    entity: Entity<TextBox>,
    pos: Point2D<Pixels>,
    i: int,
    text: Seq<char>,
) -> bool {
    &&& entity.bounds.0.origin == Point2D::<Pixels>::at(
        pos.x + ENTRY_INDENT,
        pos.y + ENTRY_STEP * i,
    )
    &&& entity.bounds.0.size == Size2D::<Pixels>::of(100, 10)
    &&& entity.sprite.text@ == text
    &&& entity.sprite.color == (if i == 0 {
        selected_color()
    } else {
        dim_color()
    })
    &&& entity.owner == Owner::OnMenu
}

/// The marker of a menu at `pos`: the tile `>` in the selected colour, ten
/// pixels square, owned by the menu.
pub open spec fn marker_at(pos: Point2D<Pixels>) -> Entity<SimpleSprite> {
    Entity {
        bounds: Bounds(Rect { origin: pos, size: Size2D::of(10, 10) }),
        sprite: SimpleSprite { tile: TileKey::Char('>'), color: selected_color() },
        owner: Owner::OnMenu,
    }
}

/// Puts up the menu screen: the title, and the menu with its two entries.
pub fn spawn_sprites(
    text_boxes: &mut Vec<Entity<TextBox>>,
    sprites: &mut Vec<Entity<SimpleSprite>>,
) -> (menu: Menu)
    ensures
        menu.wf(final(text_boxes)@),
        menu.pos == 0,
        menu.marker == old(sprites)@.len(),
        menu.has_room(marker_at(Point2D::at(10, 60)).bounds),
        final(sprites)@ == old(sprites)@.push(marker_at(Point2D::at(10, 60))),
        final(text_boxes)@.len() == old(text_boxes)@.len() + 3,
        final(text_boxes)@.subrange(0, old(text_boxes)@.len() as int) == old(text_boxes)@,
        is_title(final(text_boxes)@[old(text_boxes)@.len() as int]),
        menu.entries@.len() == 2,
        menu.entries@[0].0 == old(text_boxes)@.len() + 1,
        menu.entries@[0].1 == AppState::SinglePlayerGame,
        menu.entries@[1].0 == old(text_boxes)@.len() + 2,
        menu.entries@[1].1 == AppState::MultiplayerGame,
        is_entry(
            final(text_boxes)@[old(text_boxes)@.len() as int + 1],
            Point2D::at(10, 60),
            0,
            "single player"@,
        ),
        is_entry(
            final(text_boxes)@[old(text_boxes)@.len() as int + 2],
            Point2D::at(10, 60),
            1,
            "multiplayer"@,
        ),
{
    let ghost start = text_boxes@;
    let (title, bounds) = TextBox::spawn(
        "frog quest battle".to_owned(),
        Point2D::new(10, 40),
        pallet_color(2),
    );
    text_boxes.push(Entity { bounds, sprite: title, owner: Owner::OnMenu });
    let ghost titled = text_boxes@;
    let mut items: Vec<(String, AppState)> = Vec::new();
    items.push(("single player".to_owned(), AppState::SinglePlayerGame));
    items.push(("multiplayer".to_owned(), AppState::MultiplayerGame));
    let menu = Menu::spawn(Point2D::new(10, 60), &items, text_boxes, sprites);
    proof {
        assert(text_boxes@.subrange(0, titled.len() as int) == titled);
        assert(text_boxes@[start.len() as int] == titled[start.len() as int]);
        assert(text_boxes@.subrange(0, start.len() as int) =~= start) by {
            assert forall|i: int| 0 <= i < start.len() implies text_boxes@[i] == start[i] by {
                assert(text_boxes@[i] == titled[i]);
            }
        }
    }
    menu
}

/// Whether `entity` is the title of the menu screen.
pub open spec fn is_title(entity: Entity<TextBox>) -> bool {
    &&& entity.bounds.0.origin == Point2D::<Pixels>::at(10, 40)
    &&& entity.bounds.0.size == Size2D::<Pixels>::of(100, 10)
    &&& entity.sprite.text@ == "frog quest battle"@
    &&& entity.sprite.color == pallet(2)
    &&& entity.owner == Owner::OnMenu
}

} // verus!
