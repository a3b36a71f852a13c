//! The screens of the application and what stands on them.

use vstd::prelude::*;
use crate::game::{is_game_text, FpsCounterTextBox, GameStatusTextBox, Player, PlayerBody};
use crate::geometry::Rect;
use crate::graphics::{
    all_drawable,
    Bounds,
    background,
    draw_background,
    draw_sprites,
    layered,
    Assets,
    Entity,
    Owner,
    SimpleSprite,
    TextBox,
};
use crate::geometry::Point2D;
use crate::input::InputStream;
use crate::menu::{
    is_entry,
    is_title,
    marker_at,
    menu_walk,
    recolored,
    Menu,
    ENTRY_STEP,
};
use crate::renderer::{alpha_at, color_at, render_rect, CanvasRenderer, Color, Pixels};

verus! {

/// The screens of the application.
#[derive(Debug, Clone, Copy, Hash, PartialEq, Eq, Structural)]
pub enum AppState {
    Menu,
    SinglePlayerGame,
    MultiplayerGame,
}

impl Default for AppState {
    fn default() -> (s: Self)
        ensures
            s == AppState::Menu,
    {
        AppState::Menu
    }
}

impl AppState {
    /// The tag of what a screen puts up and takes down with it.
    pub open spec fn owner(self) -> Owner {
        match self {
            AppState::Menu => Owner::OnMenu,
            _ => Owner::OnGame,
        }
    }

    /// The tag of what the screen puts up and takes down with it.
    pub fn owner_tag(self) -> (o: Owner)
        ensures
            o == self.owner(),
    {
        match self {
            AppState::Menu => Owner::OnMenu,
            _ => Owner::OnGame,
        }
    }
}

/// Whether an entity stays when the screen of `owner` is taken down.
pub open spec fn stays<S>(owner: Owner) -> spec_fn(Entity<S>) -> bool {
    |e: Entity<S>| e.owner != owner
}

/// Takes down what `owner` had put up: the entities of other owners stay,
/// in their order.
pub fn despawn_screen<S>(entities: &mut Vec<Entity<S>>, owner: Owner)
    ensures
        final(entities)@ == old(entities)@.filter(stays::<S>(owner)),
{
    let ghost all = entities@;
    let ghost mut seen: int = 0;
    let mut at: usize = 0;
    proof {
        reveal(Seq::filter);
        assert(all.subrange(0, 0).filter(stays::<S>(owner)) =~= Seq::<Entity<S>>::empty());
        assert(entities@ =~= all.subrange(0, 0).filter(stays::<S>(owner)) + all.subrange(
            0,
            all.len() as int,
        ));
    }
    while at < entities.len()
        invariant
            0 <= seen <= all.len(),
            at == all.subrange(0, seen).filter(stays::<S>(owner)).len(),
            entities@ == all.subrange(0, seen).filter(stays::<S>(owner)) + all.subrange(
                seen,
                all.len() as int,
            ),
        decreases all.len() - seen,
    {
        proof {
            reveal(Seq::filter);
            assert(all.subrange(0, seen + 1).drop_last() =~= all.subrange(0, seen));
            assert(all.subrange(0, seen + 1).last() == all[seen]);
            assert(entities@[at as int] == all[seen]);
        }
        if entities[at].owner == owner {
            let _ = entities.remove(at);
            proof {
                assert(entities@ =~= all.subrange(0, seen + 1).filter(stays::<S>(owner))
                    + all.subrange(seen + 1, all.len() as int));
            }
        } else {
            at = at + 1;
            proof {
                assert(entities@ =~= all.subrange(0, seen + 1).filter(stays::<S>(owner))
                    + all.subrange(seen + 1, all.len() as int));
            }
        }
        proof {
            seen = seen + 1;
        }
    }
    proof {
        assert(seen == all.len());
        assert(all.subrange(0, seen) =~= all);
        assert(entities@ =~= all.filter(stays::<S>(owner)));
    }
}

/// What stands on the screen.
pub struct Scene {
    pub text_boxes: Vec<Entity<TextBox>>,
    pub sprites: Vec<Entity<SimpleSprite>>,
    pub menu: Option<Menu>,
}

/// The players as sprites, each at the bounds of its body.
pub open spec fn player_sprites(bodies: Seq<PlayerBody>) -> Seq<Entity<Player>> {
    Seq::new(
        bodies.len(),
        |i: int| Entity { bounds: bodies[i].bounds, sprite: bodies[i].player, owner: Owner::OnGame },
    )
}

/// The players as sprites, each at the bounds of its body.
pub fn sprites_of_players(bodies: &Vec<PlayerBody>) -> (sprites: Vec<Entity<Player>>)
    ensures
        sprites@ == player_sprites(bodies@),
{
    let mut sprites: Vec<Entity<Player>> = Vec::new();
    let mut n: usize = 0;
    while n < bodies.len()
        invariant
            n <= bodies@.len(),
            sprites@.len() == n,
            forall|i: int| 0 <= i < n ==> sprites@[i] == player_sprites(bodies@)[i],
        decreases bodies@.len() - n,
    {
        let body = bodies[n];
        sprites.push(Entity { bounds: body.bounds, sprite: body.player, owner: Owner::OnGame });
        n = n + 1;
    }
    assert(sprites@ =~= player_sprites(bodies@));
    sprites
}

impl Scene {
    /// A scene with nothing on it.
    pub fn new() -> (s: Self)
        ensures
            s.text_boxes@.len() == 0,
            s.sprites@.len() == 0,
            s.menu is None,
    {
        Scene { text_boxes: Vec::new(), sprites: Vec::new(), menu: None }
    }

    /// Whether this scene is what entering the screen `state` makes of a
    /// scene with the given text boxes, sprites and menu, with `boxes` as
    /// the text boxes of the status line and the frame rate. The menu
    /// screen puts up its title, its two entries and its marker, and has a
    /// menu with the first entry selected. A game screen puts up a
    /// greeting, the status line and the frame rate.
    pub open spec fn put_up(
        &self,
        text_boxes: Seq<Entity<TextBox>>,
        sprites: Seq<Entity<SimpleSprite>>,
        menu: Option<Menu>,
        state: AppState,
        boxes: Option<(GameStatusTextBox, FpsCounterTextBox)>,
    ) -> bool {
        &&& self.text_boxes@.len() == text_boxes.len() + 3
        &&& self.text_boxes@.subrange(0, text_boxes.len() as int) == text_boxes
        &&& state == AppState::Menu ==> {
            &&& boxes is None
            &&& self.menu matches Some(menu)
            &&& menu.wf(self.text_boxes@)
            &&& menu.pos == 0
            &&& menu.marker == sprites.len()
            &&& menu.entries@.len() == 2
            &&& menu.entries@[0].0 == text_boxes.len() + 1
            &&& menu.entries@[0].1 == AppState::SinglePlayerGame
            &&& menu.entries@[1].0 == text_boxes.len() + 2
            &&& menu.entries@[1].1 == AppState::MultiplayerGame
            &&& self.sprites@ == sprites.push(marker_at(Point2D::at(10, 60)))
            &&& menu.has_room(marker_at(Point2D::at(10, 60)).bounds)
            &&& is_title(self.text_boxes@[text_boxes.len() as int])
            &&& is_entry(
                self.text_boxes@[text_boxes.len() as int + 1],
                Point2D::at(10, 60),
                0,
                "single player"@,
            )
            &&& is_entry(
                self.text_boxes@[text_boxes.len() as int + 2],
                Point2D::at(10, 60),
                1,
                "multiplayer"@,
            )
        }
        &&& state != AppState::Menu ==> {
            &&& boxes matches Some(found)
            &&& found.0.entity == text_boxes.len() + 1
            &&& found.1.entity == text_boxes.len() + 2
            &&& self.menu == menu
            &&& self.sprites@ == sprites
            &&& is_game_text(self.text_boxes@[text_boxes.len() as int], 10, 40, "hello world"@)
            &&& is_game_text(self.text_boxes@[text_boxes.len() as int + 1], 10, 150, ""@)
            &&& is_game_text(self.text_boxes@[text_boxes.len() as int + 2], 10, 100, "fps"@)
        }
    }

    /// The screen `state` is entered. Returns the text boxes of the status
    /// line and of the frame rate, where the screen has them.
    pub fn enter(&mut self, state: AppState) -> (r: Option<(GameStatusTextBox, FpsCounterTextBox)>)
        ensures
            final(self).put_up(
                old(self).text_boxes@,
                old(self).sprites@,
                old(self).menu,
                state,
                r,
            ),
    {
        match state {
            AppState::Menu => {
                let menu = crate::menu::spawn_sprites(&mut self.text_boxes, &mut self.sprites);
                self.menu = Some(menu);
                None
            },
            _ => Some(crate::game::spawn_sprites(&mut self.text_boxes)),
        }
    }

    /// The screen `state` is left: what it had put up is taken down.
    pub fn exit(&mut self, state: AppState)
        ensures
            final(self).text_boxes@ == old(self).text_boxes@.filter(stays::<TextBox>(state.owner())),
            final(self).sprites@ == old(self).sprites@.filter(stays::<SimpleSprite>(state.owner())),
            final(self).menu == (if state == AppState::Menu {
                None
            } else {
                old(self).menu
            }),
    {
        let owner = state.owner_tag();
        despawn_screen(&mut self.text_boxes, owner);
        despawn_screen(&mut self.sprites, owner);
        if state == AppState::Menu {
            self.menu = None;
        }
    }

    /// The colour and opacity of the pixel `q` of a drawn screen: the
    /// background, under the text boxes, under the sprites, under the
    /// players.
    pub open spec fn shown(
        &self,
        assets: &Assets,
        bodies: Seq<PlayerBody>,
        q: Point2D<Pixels>,
    ) -> (Color, u8) {
        layered(
            layered(
                layered(
                    (background(), 255u8),
                    self.text_boxes@,
                    assets,
                    self.text_boxes@.len(),
                    q,
                ),
                self.sprites@,
                assets,
                self.sprites@.len(),
                q,
            ),
            player_sprites(bodies),
            assets,
            bodies.len(),
            q,
        )
    }

    /// Whether everything on the screen, and the players, can be drawn.
    pub open spec fn drawable(&self, assets: &Assets, bodies: Seq<PlayerBody>) -> bool {
        &&& all_drawable(self.text_boxes@, assets)
        &&& all_drawable(self.sprites@, assets)
        &&& all_drawable(player_sprites(bodies), assets)
    }

    /// Draws the screen: the background, then the text boxes, the sprites
    /// and the players, each kind in its order.
    pub fn draw(&self, assets: &Assets, bodies: &Vec<PlayerBody>, renderer: &mut CanvasRenderer)
        requires
            old(renderer).wf(),
            assets.wf(),
            self.drawable(assets, bodies@),
        ensures
            final(renderer).wf(),
            forall|q: Point2D<Pixels>|
                #![trigger color_at(final(renderer)@, q)]
                #![trigger alpha_at(final(renderer)@, q)]
                render_rect().contains_point(q) ==> (
                color_at(final(renderer)@, q),
                alpha_at(final(renderer)@, q),
            ) == self.shown(assets, bodies@, q),
    {
        draw_background(renderer);
        let ghost first = renderer@;
        draw_sprites(assets, renderer, &self.text_boxes);
        let ghost second = renderer@;
        draw_sprites(assets, renderer, &self.sprites);
        let ghost third = renderer@;
        let players = sprites_of_players(bodies);
        draw_sprites(assets, renderer, &players);
        proof {
            assert forall|q: Point2D<Pixels>|
                #![trigger color_at(renderer@, q)]
                #![trigger alpha_at(renderer@, q)]
                render_rect().contains_point(q) implies (
                color_at(renderer@, q),
                alpha_at(renderer@, q),
            ) == self.shown(assets, bodies@, q) by {
                let _ = color_at(first, q);
                let _ = alpha_at(first, q);
                let _ = color_at(second, q);
                let _ = alpha_at(second, q);
                let _ = color_at(third, q);
                let _ = alpha_at(third, q);
            }
        }
    }
}

/// The sprites `sprites` with the marker, the sprite at place `marker`,
/// moved down by `steps` entries of a menu.
pub open spec fn marker_moved(
    sprites: Seq<Entity<SimpleSprite>>,
    marker: int,
    steps: int,
) -> Seq<Entity<SimpleSprite>> {
    sprites.update(
        marker,
        Entity {
            bounds: Bounds(
                Rect {
                    origin: Point2D::at(
                        sprites[marker].bounds.0.origin.x as int,
                        sprites[marker].bounds.0.origin.y + ENTRY_STEP * steps,
                    ),
                    size: sprites[marker].bounds.0.size,
                },
            ),
            sprite: sprites[marker].sprite,
            owner: sprites[marker].owner,
        },
    )
}

/// The application's screens as a state machine: which screen is up, what
/// stands on it, and the text boxes of the game screens.
pub struct Stage {
    pub state: AppState,
    pub scene: Scene,
    pub boxes: Option<(GameStatusTextBox, FpsCounterTextBox)>,
}

impl Stage {
    /// The application as it starts: the menu screen is up, on a scene
    /// that was empty.
    pub fn new() -> (s: Self)
        ensures
            s.wf(),
            s.state == AppState::Menu,
            s.scene.put_up(Seq::empty(), Seq::empty(), None, AppState::Menu, s.boxes),
    {
        let mut scene = Scene::new();
        assert(scene.text_boxes@ =~= Seq::<Entity<TextBox>>::empty());
        assert(scene.sprites@ =~= Seq::<Entity<SimpleSprite>>::empty());
        let boxes = scene.enter(AppState::Menu);
        Stage { state: AppState::Menu, scene, boxes }
    }

    /// While the menu screen is up, the scene has a menu that fits its text
    /// boxes, and the marker of the menu is one of the sprites and has room
    /// to follow the selection.
    pub open spec fn wf(&self) -> bool {
        self.state == AppState::Menu ==> {
            &&& self.scene.menu matches Some(menu)
            &&& menu.wf(self.scene.text_boxes@)
            &&& menu.marker < self.scene.sprites@.len()
            &&& menu.has_room(self.scene.sprites@[menu.marker as int].bounds)
        }
    }

    /// The tick of the menu screen: the inputs that wait in the stream move
    /// the selection and the marker, and `Primary` goes to the screen of
    /// the selected entry: the menu screen is left and that screen is
    /// entered. Returns the screen that was picked, if one was. On another
    /// screen nothing happens.
    pub fn update_menu(&mut self, input_stream: &mut InputStream) -> (target: Option<AppState>)
        requires
            old(self).wf(),
        ensures
            final(self).wf(),
            old(self).state != AppState::Menu ==> target is None && *final(self) == *old(self)
                && *final(input_stream) == *old(input_stream),
            old(self).state == AppState::Menu ==> {
                let menu = old(self).scene.menu->0;
                let walk = menu_walk(
                    menu.pos as int,
                    menu.entries@.len() as int,
                    old(input_stream)@,
                );
                let text_boxes = recolored(old(self).scene.text_boxes@, menu.entries@, walk.0);
                let sprites = marker_moved(
                    old(self).scene.sprites@,
                    menu.marker as int,
                    walk.0 - menu.pos,
                );
                &&& final(input_stream)@.len() == 0
                &&& target == (if walk.1 {
                    Some(menu.entries@[walk.0].1)
                } else {
                    None
                })
                &&& (target is None || target == Some(AppState::Menu) ==> {
                    &&& final(self).state == AppState::Menu
                    &&& final(self).boxes == old(self).boxes
                    &&& final(self).scene.text_boxes@ == text_boxes
                    &&& final(self).scene.sprites@ == sprites
                    &&& final(self).scene.menu matches Some(after)
                    &&& after.pos == walk.0
                    &&& after.entries == menu.entries
                    &&& after.marker == menu.marker
                })
                &&& (target is Some && target != Some(AppState::Menu) ==> {
                    &&& final(self).state == target->0
                    &&& final(self).scene.put_up(
                        text_boxes.filter(stays::<TextBox>(Owner::OnMenu)),
                        sprites.filter(stays::<SimpleSprite>(Owner::OnMenu)),
                        None,
                        target->0,
                        final(self).boxes,
                    )
                })
            },
    {
        if self.state != AppState::Menu {
            return None;
        }
        let mut menu = match self.scene.menu.take() {
            Some(menu) => menu,
            None => {
                proof {
                    assert(false);
                }
                return None;
            },
        };
        let ghost sprites_before = self.scene.sprites@;
        let ghost pos_before = menu.pos;
        let mut marker = self.scene.sprites[menu.marker].bounds;
        let target = menu.update(&mut marker, &mut self.scene.text_boxes, input_stream);
        let at = menu.marker;
        let ghost pos_after = menu.pos;
        self.scene.sprites[at].bounds = marker;
        self.scene.menu = Some(menu);
        proof {
            let moved = marker_moved(sprites_before, at as int, pos_after - pos_before);
            assert(self.scene.sprites@[at as int].bounds.0.origin == moved[at as int].bounds.0.origin);
            assert(self.scene.sprites@[at as int].bounds == moved[at as int].bounds);
            assert(self.scene.sprites@[at as int] == moved[at as int]);
            assert(self.scene.sprites@ =~= moved);
        }
        match target {
            Some(screen) => {
                let _ = self.set(screen);
            },
            None => {},
        }
        target
    }

    /// Goes to the screen `target`: the screen that is up is left and
    /// `target` is entered. Returns whether the screen changed; going to
    /// the screen that is up changes nothing.
    pub fn set(&mut self, target: AppState) -> (changed: bool)
        requires
            old(self).wf(),
        ensures
            final(self).wf(),
            changed == (target != old(self).state),
            !changed ==> *final(self) == *old(self),
            changed ==> final(self).state == target && final(self).scene.put_up(
                old(self).scene.text_boxes@.filter(stays::<TextBox>(old(self).state.owner())),
                old(self).scene.sprites@.filter(stays::<SimpleSprite>(old(self).state.owner())),
                if old(self).state == AppState::Menu {
                    None
                } else {
                    old(self).scene.menu
                },
                target,
                final(self).boxes,
            ),
    {
        if target == self.state {
            return false;
        }
        self.scene.exit(self.state);
        self.boxes = self.scene.enter(target);
        self.state = target;
        true
    }
}

} // verus!
