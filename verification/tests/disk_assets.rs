use rgine::assets::{AssetKind, AssetsEvent};
use rgine::disk_assets::{
    asset_name, assets_dir, is_snake_case, plan, skip_last, split_at_dots, AssetLookup, FileEntry,
    FileAssetsEventQueueExt, FileAssetsRegistry,
};
use rgine::modules::events::EventQueue;

const SHEETS: AssetKind = 3;
const OTHER: AssetKind = 4;

fn file(name: &str) -> FileEntry {
    FileEntry {
        file_name: name.to_string(),
        path: format!("assets/sprites/{name}"),
        is_file: true,
        extension: name.rsplit_once('.').map(|(_, ext)| ext.to_string()),
    }
}

fn directory(name: &str) -> FileEntry {
    FileEntry {
        file_name: name.to_string(),
        path: format!("assets/sprites/{name}"),
        is_file: false,
        extension: None,
    }
}

/// A registry that keeps the paths it was given and hands out their index.
struct Sheets {
    paths: Vec<String>,
}

impl FileAssetsRegistry for Sheets {
    type Handle = usize;
    type Data = String;

    fn new() -> Self {
        Sheets { paths: Vec::new() }
    }

    fn read_file(path: &str) -> String {
        path.to_uppercase()
    }

    fn register(&mut self, data: String) -> usize {
        self.paths.push(data);
        self.paths.len() - 1
    }

    fn file_extensions() -> Vec<String> {
        vec!["png".to_string(), "jpg".to_string()]
    }
}

#[test]
fn assets_dir_is_below_assets() {
    assert_eq!(assets_dir("sprites"), "assets/sprites");
    assert_eq!(assets_dir(""), "assets/");
    assert_eq!(assets_dir("a/b"), "assets/a/b");
}

#[test]
fn skip_last_drops_the_last_item() {
    assert_eq!(skip_last(vec![1, 2, 3]), vec![1, 2]);
    assert_eq!(skip_last(vec![1]), Vec::<i32>::new());
    assert_eq!(skip_last(Vec::<i32>::new()), Vec::<i32>::new());
}

#[test]
fn snake_case_is_letters_digits_and_underscores() {
    assert!(is_snake_case("player_idle_01"));
    assert!(is_snake_case("Player"));
    assert!(is_snake_case(""));
    assert!(!is_snake_case("player-idle"));
    assert!(!is_snake_case("player idle"));
    assert!(!is_snake_case("joueur_é"));
    assert!(!is_snake_case("a.b"));
}

#[test]
fn file_names_split_at_dots() {
    assert_eq!(split_at_dots("a.b.png"), vec!["a", "b", "png"]);
    assert_eq!(split_at_dots("png"), vec!["png"]);
    assert_eq!(split_at_dots(""), vec![""]);
    assert_eq!(split_at_dots(".hidden"), vec!["", "hidden"]);
    assert_eq!(split_at_dots("a..b."), vec!["a", "", "b", ""]);
}

#[test]
fn asset_name_is_the_file_name_without_extension_and_dots() {
    assert_eq!(asset_name("player.png"), "player");
    assert_eq!(asset_name("player.idle.png"), "playeridle");
    assert_eq!(asset_name("player"), "");
    assert_eq!(asset_name(".png"), "");
    assert_eq!(asset_name(""), "");
    assert_eq!(asset_name("héros.png"), "héros");
}

#[test]
fn plan_names_the_files_to_load_in_listing_order() {
    let listing = vec![file("b_two.png"), file("a_one.jpg"), file("bad-name.png"), file("c.d.png")];
    let extensions = Sheets::file_extensions();
    let items = plan(&listing, &extensions).unwrap();
    let names: Vec<&str> = items.iter().map(|item| item.name.as_str()).collect();
    let paths: Vec<&str> = items.iter().map(|item| item.path.as_str()).collect();
    assert_eq!(names, vec!["b_two", "a_one", "cd"]);
    assert_eq!(
        paths,
        vec!["assets/sprites/b_two.png", "assets/sprites/a_one.jpg", "assets/sprites/c.d.png"]
    );
}

#[test]
fn plan_gives_up_on_anything_but_wanted_files() {
    let extensions = Sheets::file_extensions();
    assert!(plan(&vec![file("a.png"), directory("more"), file("b.png")], &extensions).is_none());
    assert!(plan(&vec![file("a.png"), file("notes.txt")], &extensions).is_none());
    assert!(plan(&vec![file("no_extension")], &extensions).is_none());
    assert!(plan(&vec![file("bad-name.gif")], &extensions).is_none());
    assert!(plan(&vec![file("a.png")], &Vec::new()).is_none());
    assert!(plan(&Vec::new(), &extensions).unwrap().is_empty());
}

#[test]
fn loading_binds_names_and_queues_the_registry() {
    let mut queue: EventQueue<AssetsEvent<Sheets>> = EventQueue::new();
    let mut lookup: AssetLookup<usize> = AssetLookup::new();
    let listing = vec![file("hero.png"), file("bad name.png"), file("foe.jpg"), file("hero.jpg")];
    queue.load_asset_registry_from_disk(SHEETS, &listing, &mut lookup);

    assert_eq!(*lookup.get(SHEETS, "foe"), 1);
    assert_eq!(*lookup.get(SHEETS, "hero"), 2);

    let mut events = queue.drain();
    assert_eq!(events.len(), 1);
    match &mut events[0] {
        AssetsEvent::Load { kind, value } => {
            assert_eq!(*kind, SHEETS);
            assert_eq!(
                value.take().paths,
                vec![
                    "ASSETS/SPRITES/HERO.PNG".to_string(),
                    "ASSETS/SPRITES/FOE.JPG".to_string(),
                    "ASSETS/SPRITES/HERO.JPG".to_string(),
                ]
            );
        }
        AssetsEvent::Reset => panic!("expected a load event"),
    }
}

#[test]
fn loading_a_directory_that_is_given_up_changes_nothing() {
    let mut queue: EventQueue<AssetsEvent<Sheets>> = EventQueue::new();
    let mut lookup: AssetLookup<usize> = AssetLookup::new();
    lookup.add_assets(OTHER, vec![("kept".to_string(), 5)]);
    let listing = vec![file("hero.png"), file("readme.md")];
    queue.load_asset_registry_from_disk(SHEETS, &listing, &mut lookup);
    assert!(queue.is_empty());
    assert_eq!(*lookup.get(OTHER, "kept"), 5);
}

#[test]
fn lookup_answers_with_the_latest_binding_of_a_name() {
    let mut lookup: AssetLookup<u8> = AssetLookup::new();
    lookup.add_assets(
        SHEETS,
        vec![("a".to_string(), 1), ("b".to_string(), 2), ("a".to_string(), 3)],
    );
    lookup.add_assets(OTHER, vec![("a".to_string(), 9)]);
    assert_eq!(*lookup.get(SHEETS, "a"), 3);
    assert_eq!(*lookup.get(SHEETS, "b"), 2);
    assert_eq!(*lookup.get(OTHER, "a"), 9);
    lookup.add_assets(SHEETS, vec![("b".to_string(), 7)]);
    assert_eq!(*lookup.get(SHEETS, "b"), 7);
}
