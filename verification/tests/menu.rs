use frog_quest_battle::game::{GameStatus, Player};
use frog_quest_battle::geometry::{Point2D, Rect, Size2D};
use frog_quest_battle::graphics::{
    pallet_color, Assets, Bounds, Entity, Owner, PalletColor, SimpleSprite, SpriteData,
    SpriteSheet, TextBox, TileKey,
};
use frog_quest_battle::input::{Input, InputStream};
use frog_quest_battle::menu::{spawn_sprites, Menu};
use frog_quest_battle::renderer::CanvasRenderer;
use frog_quest_battle::scene::{despawn_screen, sprites_of_players, AppState, Scene, Stage};

fn stream(inputs: &[Input]) -> InputStream {
    let mut s = InputStream::new();
    for i in inputs {
        s.put(*i);
    }
    s
}

fn colors(scene: &Scene) -> Vec<usize> {
    scene
        .text_boxes
        .iter()
        .map(|e| (0..4).find(|i| pallet_color(*i) == e.sprite.color).unwrap())
        .collect()
}

#[test]
fn the_menu_screen_has_a_title_two_entries_and_a_marker() {
    let mut scene = Scene::new();
    assert_eq!(scene.enter(AppState::Menu).map(|r| r.0.entity), None);
    let texts: Vec<&str> = scene.text_boxes.iter().map(|e| e.sprite.text.as_str()).collect();
    assert_eq!(texts, vec!["frog quest battle", "single player", "multiplayer"]);
    let places: Vec<Bounds> = scene.text_boxes.iter().map(|e| e.bounds).collect();
    assert_eq!(
        places,
        vec![
            Bounds(Rect::new(Point2D::new(10, 40), Size2D::new(100, 10))),
            Bounds(Rect::new(Point2D::new(15, 60), Size2D::new(100, 10))),
            Bounds(Rect::new(Point2D::new(15, 70), Size2D::new(100, 10))),
        ]
    );
    assert_eq!(colors(&scene), vec![2, 3, 1]);
    assert!(scene.text_boxes.iter().all(|e| e.owner == Owner::OnMenu));
    assert_eq!(scene.sprites.len(), 1);
    let marker = &scene.sprites[0];
    assert_eq!(marker.bounds, Bounds(Rect::new(Point2D::new(10, 60), Size2D::new(10, 10))));
    assert_eq!(marker.sprite.color, pallet_color(3));
    assert_eq!(marker.sprite.tile.chars(), vec!['>']);
    assert_eq!(marker.owner, Owner::OnMenu);
    let menu = scene.menu.as_ref().unwrap();
    assert_eq!(menu.pos, 0);
    assert_eq!(menu.marker, 0);
    assert_eq!(
        menu.entries,
        vec![(1, AppState::SinglePlayerGame), (2, AppState::MultiplayerGame)]
    );
    assert_eq!(menu.current_app_state(), AppState::SinglePlayerGame);
    assert_eq!(AppState::default(), AppState::Menu);
}

#[test]
fn up_and_down_move_the_selection_and_the_marker() {
    let mut scene = Scene::new();
    scene.enter(AppState::Menu);
    let mut menu = scene.menu.take().unwrap();
    let mut marker = scene.sprites[0].bounds;
    menu.up(&mut marker, &mut scene.text_boxes);
    assert_eq!(menu.pos, 0);
    assert_eq!(marker.0.origin, Point2D::new(10, 60));
    assert_eq!(colors(&scene), vec![2, 3, 1]);
    menu.down(&mut marker, &mut scene.text_boxes);
    assert_eq!(menu.pos, 1);
    assert_eq!(marker.0.origin, Point2D::new(10, 70));
    assert_eq!(colors(&scene), vec![2, 1, 3]);
    assert_eq!(menu.current_app_state(), AppState::MultiplayerGame);
    menu.down(&mut marker, &mut scene.text_boxes);
    assert_eq!(menu.pos, 1);
    assert_eq!(marker.0.origin, Point2D::new(10, 70));
    assert_eq!(colors(&scene), vec![2, 1, 3]);
    menu.up(&mut marker, &mut scene.text_boxes);
    assert_eq!(menu.pos, 0);
    assert_eq!(marker.0.origin, Point2D::new(10, 60));
    assert_eq!(colors(&scene), vec![2, 3, 1]);
    assert_eq!(marker.0.size, Size2D::new(10, 10));
}

#[test]
fn primary_picks_the_selected_entry() {
    let run = |inputs: &[Input]| {
        let mut scene = Scene::new();
        scene.enter(AppState::Menu);
        let mut menu = scene.menu.take().unwrap();
        let mut marker = scene.sprites[0].bounds;
        let mut s = stream(inputs);
        let target = menu.update(&mut marker, &mut scene.text_boxes, &mut s);
        assert_eq!(s.get(), None);
        assert_eq!(marker.0.origin, Point2D::new(10, 60 + 10 * menu.pos as i32));
        (target, menu.pos, colors(&scene))
    };
    assert_eq!(run(&[]), (None, 0, vec![2, 3, 1]));
    assert_eq!(run(&[Input::Primary]), (Some(AppState::SinglePlayerGame), 0, vec![2, 3, 1]));
    assert_eq!(run(&[Input::Down]), (None, 1, vec![2, 1, 3]));
    assert_eq!(
        run(&[Input::Down, Input::Primary]),
        (Some(AppState::MultiplayerGame), 1, vec![2, 1, 3])
    );
    assert_eq!(
        run(&[Input::Down, Input::Down, Input::Up, Input::Up, Input::Up, Input::Primary]),
        (Some(AppState::SinglePlayerGame), 0, vec![2, 3, 1])
    );
    assert_eq!(
        run(&[Input::Left, Input::Right, Input::Down, Input::Left]),
        (None, 1, vec![2, 1, 3])
    );
    assert_eq!(
        run(&[Input::Primary, Input::Down, Input::Primary]),
        (Some(AppState::SinglePlayerGame), 0, vec![2, 3, 1])
    );
}

#[test]
fn a_menu_can_be_put_up_anywhere_with_any_entries() {
    let mut text_boxes = vec![];
    let mut sprites = vec![];
    let (other, place) = TextBox::spawn("other".to_string(), Point2D::new(1, 2), pallet_color(0));
    text_boxes.push(Entity { bounds: place, sprite: other, owner: Owner::OnGame });
    let items = vec![
        ("one".to_string(), AppState::Menu),
        ("two".to_string(), AppState::MultiplayerGame),
        ("three".to_string(), AppState::SinglePlayerGame),
    ];
    let menu = Menu::spawn(Point2D::new(-7, 100), &items, &mut text_boxes, &mut sprites);
    assert_eq!(
        menu.entries,
        vec![(1, AppState::Menu), (2, AppState::MultiplayerGame), (3, AppState::SinglePlayerGame)]
    );
    assert_eq!(text_boxes.len(), 4);
    assert_eq!(text_boxes[0].sprite.text, "other");
    assert_eq!(text_boxes[3].sprite.text, "three");
    assert_eq!(text_boxes[3].bounds.0.origin, Point2D::new(-2, 120));
    assert_eq!(text_boxes[1].sprite.color, pallet_color(3));
    assert_eq!(text_boxes[2].sprite.color, pallet_color(1));
    assert_eq!(text_boxes[3].sprite.color, pallet_color(1));
    assert_eq!(sprites.len(), 1);
    assert_eq!(sprites[0].bounds.0.origin, Point2D::new(-7, 100));
    let single = Menu::new(vec![(0, AppState::Menu)], 5);
    assert_eq!((single.pos, single.marker), (0, 5));
}

#[test]
fn leaving_a_screen_takes_down_what_it_put_up() {
    let mut scene = Scene::new();
    scene.enter(AppState::Menu);
    let boxes = scene.enter(AppState::MultiplayerGame).unwrap();
    assert_eq!((boxes.0.entity, boxes.1.entity), (4, 5));
    let texts: Vec<&str> = scene.text_boxes.iter().map(|e| e.sprite.text.as_str()).collect();
    assert_eq!(
        texts,
        vec!["frog quest battle", "single player", "multiplayer", "hello world", "", "fps"]
    );
    assert_eq!(scene.text_boxes[3].bounds.0.origin, Point2D::new(10, 40));
    assert_eq!(scene.text_boxes[4].bounds.0.origin, Point2D::new(10, 150));
    assert_eq!(scene.text_boxes[5].bounds.0.origin, Point2D::new(10, 100));
    assert!(scene.text_boxes[3..].iter().all(|e| e.owner == Owner::OnGame));
    assert!(scene.text_boxes[3..].iter().all(|e| e.sprite.color == pallet_color(2)));
    scene.exit(AppState::Menu);
    let texts: Vec<&str> = scene.text_boxes.iter().map(|e| e.sprite.text.as_str()).collect();
    assert_eq!(texts, vec!["hello world", "", "fps"]);
    assert!(scene.sprites.is_empty());
    assert!(scene.menu.is_none());
    scene.enter(AppState::Menu);
    scene.exit(AppState::SinglePlayerGame);
    let texts: Vec<&str> = scene.text_boxes.iter().map(|e| e.sprite.text.as_str()).collect();
    assert_eq!(texts, vec!["frog quest battle", "single player", "multiplayer"]);
    assert_eq!(scene.sprites.len(), 1);
    assert!(scene.menu.is_some());
    assert_eq!(scene.menu.as_ref().unwrap().entries[0].0, 4);
}

#[test]
fn despawning_keeps_the_others_in_order() {
    let tag = |n: i32, owner: Owner| Entity {
        bounds: Bounds(Rect::new(Point2D::new(n, 0), Size2D::new(1, 1))),
        sprite: n,
        owner,
    };
    let mut entities = vec![
        tag(0, Owner::OnGame),
        tag(1, Owner::OnMenu),
        tag(2, Owner::OnMenu),
        tag(3, Owner::OnGame),
        tag(4, Owner::OnMenu),
        tag(5, Owner::OnGame),
        tag(6, Owner::OnGame),
    ];
    despawn_screen(&mut entities, Owner::OnGame);
    assert_eq!(entities.iter().map(|e| e.sprite).collect::<Vec<i32>>(), vec![1, 2, 4]);
    despawn_screen(&mut entities, Owner::OnGame);
    assert_eq!(entities.len(), 3);
    despawn_screen(&mut entities, Owner::OnMenu);
    assert!(entities.is_empty());
    despawn_screen(&mut entities, Owner::OnMenu);
    assert!(entities.is_empty());
    assert_eq!(AppState::Menu.owner_tag(), Owner::OnMenu);
    assert_eq!(AppState::SinglePlayerGame.owner_tag(), Owner::OnGame);
    assert_eq!(AppState::MultiplayerGame.owner_tag(), Owner::OnGame);
}

#[test]
fn the_status_line_is_shown_in_its_text_box() {
    let mut scene = Scene::new();
    let boxes = scene.enter(AppState::SinglePlayerGame).unwrap();
    assert_eq!((boxes.0.entity, boxes.1.entity), (1, 2));
    let mut status = GameStatus::default();
    status.set_message("waiting for players".to_string());
    boxes.0.update(&status, &mut scene.text_boxes);
    let texts: Vec<&str> = scene.text_boxes.iter().map(|e| e.sprite.text.as_str()).collect();
    assert_eq!(texts, vec!["hello world", "waiting for players", "fps"]);
    assert_eq!(scene.text_boxes[1].sprite.color, pallet_color(2));
    assert_eq!(scene.text_boxes[1].bounds.0.origin, Point2D::new(10, 150));
}

#[test]
fn a_screen_is_drawn_in_layers() {
    let ink = PalletColor::Color2;
    let mut font = SpriteSheet::new();
    font.insert_sprite(TileKey::Char('>'), SpriteData::new(Size2D::new(1, 1), vec![ink]).unwrap());
    font.insert_sprite(TileKey::Char('x'), SpriteData::new(Size2D::new(2, 1), vec![ink, ink]).unwrap());
    let assets = Assets::new(font);
    let mut scene = Scene::new();
    let (text, _) = TextBox::spawn("xx".to_string(), Point2D::new(0, 0), pallet_color(2));
    let place = Bounds(Rect::new(Point2D::new(10, 10), Size2D::new(100, 10)));
    scene.text_boxes.push(Entity { bounds: place, sprite: text, owner: Owner::OnGame });
    scene.sprites.push(Entity {
        bounds: Bounds(Rect::new(Point2D::new(12, 10), Size2D::new(10, 10))),
        sprite: SimpleSprite { tile: TileKey::Char('>'), color: pallet_color(3) },
        owner: Owner::OnGame,
    });
    let mut body = Player::spawn(1);
    body.bounds = Bounds(Rect::new(Point2D::new(13, 9), Size2D::new(2, 2)));
    let bodies = vec![body];
    assert_eq!(sprites_of_players(&bodies).len(), 1);
    let mut r = CanvasRenderer::new();
    scene.draw(&assets, &bodies, &mut r);
    let show = |x: i32, y: i32| {
        let c = r.pixel(Point2D::new(x, y));
        (0..4).find(|i| pallet_color(*i) == c).unwrap()
    };
    assert_eq!(
        (9..16).map(|x| show(x, 10)).collect::<Vec<usize>>(),
        vec![0, 2, 2, 3, 1, 1, 0]
    );
    assert_eq!(
        (9..16).map(|x| show(x, 9)).collect::<Vec<usize>>(),
        vec![0, 0, 0, 0, 1, 1, 0]
    );
    assert_eq!(show(0, 0), 0);
    assert_eq!(show(314, 142), 0);
}

#[test]
fn the_stage_goes_from_screen_to_screen() {
    let mut stage = Stage::new();
    assert_eq!(stage.state, AppState::Menu);
    assert!(stage.boxes.is_none());
    assert_eq!(stage.scene.text_boxes.len(), 3);
    assert_eq!(stage.scene.sprites.len(), 1);
    assert_eq!(stage.scene.menu.as_ref().unwrap().pos, 0);
    assert!(!stage.set(AppState::Menu));
    assert_eq!(stage.scene.text_boxes.len(), 3);
    assert!(stage.set(AppState::MultiplayerGame));
    assert_eq!(stage.state, AppState::MultiplayerGame);
    let texts: Vec<&str> = stage.scene.text_boxes.iter().map(|e| e.sprite.text.as_str()).collect();
    assert_eq!(texts, vec!["hello world", "", "fps"]);
    assert!(stage.scene.sprites.is_empty());
    assert!(stage.scene.menu.is_none());
    let boxes = stage.boxes.unwrap();
    assert_eq!((boxes.0.entity, boxes.1.entity), (1, 2));
    assert!(stage.set(AppState::SinglePlayerGame));
    let texts: Vec<&str> = stage.scene.text_boxes.iter().map(|e| e.sprite.text.as_str()).collect();
    assert_eq!(texts, vec!["hello world", "", "fps"]);
    assert!(stage.set(AppState::Menu));
    let texts: Vec<&str> = stage.scene.text_boxes.iter().map(|e| e.sprite.text.as_str()).collect();
    assert_eq!(texts, vec!["frog quest battle", "single player", "multiplayer"]);
    assert!(stage.boxes.is_none());
    assert_eq!(stage.scene.menu.as_ref().unwrap().entries[1], (2, AppState::MultiplayerGame));
    assert_eq!(stage.scene.sprites.len(), 1);
}

#[test]
fn the_tick_of_the_menu_screen_moves_the_marker_and_changes_the_screen() {
    let mut stage = Stage::new();
    let mut s = stream(&[Input::Down, Input::Up, Input::Down, Input::Left]);
    assert_eq!(stage.update_menu(&mut s), None);
    assert_eq!(s.get(), None);
    assert_eq!(stage.state, AppState::Menu);
    assert_eq!(stage.scene.menu.as_ref().unwrap().pos, 1);
    assert_eq!(stage.scene.sprites[0].bounds.0.origin, Point2D::new(10, 70));
    assert_eq!(colors(&stage.scene), vec![2, 1, 3]);
    let mut s = stream(&[Input::Primary, Input::Up]);
    assert_eq!(stage.update_menu(&mut s), Some(AppState::MultiplayerGame));
    assert_eq!(s.get(), None);
    assert_eq!(stage.state, AppState::MultiplayerGame);
    assert!(stage.scene.menu.is_none());
    assert_eq!(stage.scene.text_boxes.len(), 3);
    let mut s = stream(&[Input::Primary, Input::Up]);
    assert_eq!(stage.update_menu(&mut s), None);
    assert_eq!(s.get(), Some(Input::Primary));
    assert_eq!(stage.state, AppState::MultiplayerGame);
    assert!(stage.set(AppState::Menu));
    let mut s = stream(&[Input::Primary]);
    assert_eq!(stage.update_menu(&mut s), Some(AppState::SinglePlayerGame));
    assert_eq!(stage.state, AppState::SinglePlayerGame);
}
