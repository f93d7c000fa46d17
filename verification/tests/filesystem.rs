use warp_events::constellation::ConstellationDataType;
use warp_events::directory::{split_path, Directory, File, Item, ItemType};
use warp_events::error::Error;
use warp_events::memory_system::MemorySystemInternal;
use warp_events::pocket_dimension::{DimensionData, DimensionDataInner, DimensionDataType};

#[test]
fn data_type_is_named_in_any_case() {
    assert_eq!(ConstellationDataType::from("yaml"), ConstellationDataType::Yaml);
    assert_eq!(ConstellationDataType::from("YAML"), ConstellationDataType::Yaml);
    assert_eq!(ConstellationDataType::from("Toml"), ConstellationDataType::Toml);
    assert_eq!(ConstellationDataType::from("json"), ConstellationDataType::Json);
    assert_eq!(ConstellationDataType::from("xml"), ConstellationDataType::Json);
    assert_eq!(ConstellationDataType::from(""), ConstellationDataType::Json);
}

#[test]
fn data_type_from_uppercase_is_exact() {
    let name = |s: &str| ConstellationDataType::from_uppercase(&s.to_string());
    assert_eq!(name("YAML"), ConstellationDataType::Yaml);
    assert_eq!(name("TOML"), ConstellationDataType::Toml);
    assert_eq!(name("JSON"), ConstellationDataType::Json);
    assert_eq!(name("yaml"), ConstellationDataType::Json);
    assert_eq!(name("YAML "), ConstellationDataType::Json);
}

#[test]
fn dimension_data_types_differ() {
    assert_ne!(DimensionDataType::Json, DimensionDataType::String);
    assert_ne!(DimensionDataType::String, DimensionDataType::Buffer);
    assert_eq!(DimensionDataType::Buffer.clone(), DimensionDataType::Buffer);
}

#[test]
fn memory_system_starts_with_an_empty_root() {
    let system = MemorySystemInternal::new();
    assert_eq!(system.as_ref().name(), "root");
    assert!(system.as_ref().get_content().is_empty());
    let system = MemorySystemInternal::default();
    assert_eq!(system.0.name, "root");
    assert_eq!(system.0.content.len(), 0);
}

#[test]
fn memory_system_root_can_be_changed() {
    let mut system = MemorySystemInternal::new();
    system.as_mut().insert(Item::File(File::new("a.txt"))).unwrap();
    assert!(system.as_ref().exist("a.txt"));
    assert_eq!(system.0.content.len(), 1);
}

#[test]
fn new_directories_get_their_own_identifiers() {
    let a = Directory::new("a");
    let b = Directory::new("a");
    assert_ne!(a.id, b.id);
    for id in [a.id, b.id, File::new("f").id, MemorySystemInternal::new().0.id] {
        assert_eq!((id >> 76) & 0xf, 4);
        assert_eq!((id >> 62) & 0x3, 2);
        assert_eq!(uuid::Uuid::from_u128(id).get_version_num(), 4);
    }
    assert!(a.create() > 0);
    assert_eq!(a.item_type(), ItemType::Directory);
}

#[test]
fn insert_refuses_a_taken_name() {
    let mut root = Directory::new("root");
    assert_eq!(root.insert(Item::File(File::new("a.txt"))), Ok(()));
    assert_eq!(root.insert(Item::Directory(Directory::new("docs"))), Ok(()));
    assert_eq!(root.insert(Item::File(File::new("a.txt"))), Err(Error::Other));
    assert_eq!(root.insert(Item::Directory(Directory::new("a.txt"))), Err(Error::Other));
    assert_eq!(root.get_content().len(), 2);
    assert!(root.exist("a.txt"));
    assert!(root.exist("docs"));
    assert!(!root.exist("b.txt"));
    assert!(!root.exist(""));
}

#[test]
fn exist_wants_exactly_one_item() {
    let mut root = Directory::new("root");
    root.content.push(Item::File(File::new("twin")));
    assert!(root.exist("twin"));
    root.content.push(Item::File(File::new("twin")));
    assert!(!root.exist("twin"));
    assert_eq!(root.get_item("twin").err(), Some(Error::Other));
    // With two of a name already there, a third is let in.
    assert_eq!(root.insert(Item::File(File::new("twin"))), Ok(()));
    assert_eq!(root.content.len(), 3);
}

#[test]
fn remove_takes_the_first_of_a_name() {
    let mut root = Directory::new("root");
    let first = File::new("twin");
    let second = File::new("twin");
    let first_id = first.id;
    let second_id = second.id;
    root.content.push(Item::File(File::new("other")));
    root.content.push(Item::File(first));
    root.content.push(Item::File(second));
    match root.remove("twin") {
        Ok(Item::File(file)) => assert_eq!(file.id, first_id),
        other => panic!("unexpected {other:?}"),
    }
    assert_eq!(root.content.len(), 2);
    assert_eq!(root.content[0].name(), "other");
    match &root.content[1] {
        Item::File(file) => assert_eq!(file.id, second_id),
        other => panic!("unexpected {other:?}"),
    }
    assert_eq!(root.remove("missing").err(), Some(Error::NotFound));
    assert_eq!(root.content.len(), 2);
    assert_eq!(root.position("twin"), Some(1));
    assert_eq!(root.position("missing"), None);
}

#[test]
fn get_item_finds_by_name() {
    let mut root = Directory::new("root");
    root.insert(Item::File(File::new("a.txt"))).unwrap();
    root.insert(Item::Directory(Directory::new("docs"))).unwrap();
    let item = root.get_item("docs").unwrap();
    assert_eq!(item.item_type(), ItemType::Directory);
    assert_eq!(item.name(), "docs");
    assert!(item.to_directory().is_ok());
    assert_eq!(item.to_file().err(), Some(Error::Other));
    let item = root.get_item("a.txt").unwrap();
    assert_eq!(item.item_type(), ItemType::File);
    assert!(item.to_file().is_ok());
    assert_eq!(item.to_directory().err(), Some(Error::Other));
    assert_eq!(root.get_item("b.txt").err(), Some(Error::Other));
}

fn file(name: &str, size: usize) -> Item {
    let mut file = File::new(name);
    file.size = size;
    Item::File(file)
}

fn tree() -> Directory {
    let mut notes = Directory::new("notes");
    notes.insert(file("todo.txt", 7)).unwrap();
    let mut docs = Directory::new("docs");
    docs.insert(file("readme.md", 100)).unwrap();
    docs.insert(Item::Directory(notes)).unwrap();
    let mut root = Directory::new("root");
    root.insert(file("a.txt", 3)).unwrap();
    root.insert(Item::Directory(docs)).unwrap();
    root.insert(Item::Directory(Directory::new("empty"))).unwrap();
    root
}

#[test]
fn paths_split_into_names() {
    assert_eq!(split_path("docs/notes/todo.txt"), vec!["docs", "notes", "todo.txt"]);
    assert_eq!(split_path("/docs//notes/"), vec!["docs", "notes"]);
    assert_eq!(split_path("a"), vec!["a"]);
    assert_eq!(split_path(""), Vec::<String>::new());
    assert_eq!(split_path("///"), Vec::<String>::new());
    assert_eq!(split_path("données/été"), vec!["données", "été"]);
}

#[test]
fn paths_lead_through_directories() {
    let root = tree();
    assert_eq!(root.get_item_from_path("a.txt").unwrap().name(), "a.txt");
    assert_eq!(root.get_item_from_path("docs").unwrap().item_type(), ItemType::Directory);
    assert_eq!(root.get_item_from_path("/docs/readme.md").unwrap().name(), "readme.md");
    assert_eq!(root.get_item_from_path("docs/notes/todo.txt").unwrap().size(), 7);
    assert_eq!(root.get_item_from_path("docs//notes/").unwrap().name(), "notes");
}

#[test]
fn paths_that_lead_nowhere_fail() {
    let root = tree();
    assert_eq!(root.get_item_from_path("").err(), Some(Error::NotFound));
    assert_eq!(root.get_item_from_path("//").err(), Some(Error::NotFound));
    assert_eq!(root.get_item_from_path("missing").err(), Some(Error::Other));
    assert_eq!(root.get_item_from_path("docs/missing").err(), Some(Error::Other));
    assert_eq!(root.get_item_from_path("empty/anything").err(), Some(Error::Other));
}

#[test]
fn a_file_on_the_way_ends_the_path() {
    let root = tree();
    let item = root.get_item_from_path("a.txt/whatever/else").unwrap();
    assert_eq!(item.name(), "a.txt");
    assert_eq!(item.item_type(), ItemType::File);
}

#[test]
fn sizes_add_up_through_the_tree() {
    let root = tree();
    assert_eq!(root.size(), 110);
    assert_eq!(root.get_item("docs").unwrap().size(), 107);
    assert_eq!(root.get_item("empty").unwrap().size(), 0);
    assert_eq!(Directory::new("fresh").size(), 0);
}

#[test]
fn items_can_be_changed_in_place() {
    let mut root = tree();
    match root.get_item_mut_from_path("docs/notes/todo.txt").unwrap() {
        Item::File(file) => file.size = 70,
        other => panic!("unexpected {other:?}"),
    }
    assert_eq!(root.size(), 173);
    match root.get_item_mut("a.txt").unwrap() {
        Item::File(file) => file.name = String::from("b.txt"),
        other => panic!("unexpected {other:?}"),
    }
    assert!(root.exist("b.txt"));
    assert!(!root.exist("a.txt"));
    assert_eq!(root.get_item_mut("a.txt").err(), Some(Error::Other));
    assert_eq!(root.get_item_mut_from_path("").err(), Some(Error::NotFound));
    assert_eq!(root.get_item_mut_from_path("docs/missing").err(), Some(Error::Other));
    root.get_content_mut().clear();
    assert_eq!(root.get_content().len(), 0);
    assert_eq!(root.name(), "root");
}

#[test]
fn copies_are_deep() {
    let root = tree();
    let mut copy = root.clone();
    assert_eq!(copy, root);
    assert_eq!(copy.duplicate(), root);
    match copy.get_item_mut_from_path("docs/readme.md").unwrap() {
        Item::File(file) => file.size = 1,
        other => panic!("unexpected {other:?}"),
    }
    assert_ne!(copy, root);
    assert_eq!(root.size(), 110);
    assert_eq!(copy.size(), 11);
    let item = root.get_item("docs").unwrap();
    assert_eq!(item.clone(), *item);
    let system = MemorySystemInternal::new();
    assert_eq!(system.clone().0, system.0);
}

#[test]
fn dimension_data_knows_its_name_and_path() {
    let data = DimensionData::from_path("report", "/tmp/report.pdf");
    assert_eq!(data.name(), Ok(String::from("report")));
    assert_eq!(data.path(), Ok(String::from("/tmp/report.pdf")));

    let data = DimensionData::from_buffer("picture", &[1, 2, 3]);
    assert_eq!(data.name(), Ok(String::from("picture")));
    assert_eq!(data.path(), Err(Error::Other));
    assert_eq!(
        *data.get_inner(),
        DimensionDataInner::Buffer { name: String::from("picture"), buffer: vec![1, 2, 3] }
    );

    let data = DimensionData::from_buffer_nofile("scratch", &[9, 8]);
    assert_eq!(data.name(), Ok(String::from("scratch")));
    assert_eq!(data.path(), Err(Error::Other));

    let unnamed = DimensionData(DimensionDataInner::Path { name: None, path: String::from("x") });
    assert_eq!(unnamed.name(), Err(Error::Other));
    assert_eq!(unnamed.path(), Ok(String::from("x")));
}

#[test]
fn only_memory_data_is_written_to_a_buffer() {
    let data = DimensionData::from_buffer_nofile("scratch", &[9, 8, 7]);
    let mut buffer = vec![0u8; 3];
    assert_eq!(data.write_to_buffer(&mut buffer), Ok(()));
    assert_eq!(buffer, vec![9, 8, 7]);

    let data = DimensionData::from_buffer("picture", &[1, 2, 3]);
    let mut buffer = vec![0u8; 3];
    assert_eq!(data.write_to_buffer(&mut buffer), Err(Error::Other));
    assert_eq!(buffer, vec![0, 0, 0]);

    let data = DimensionData::from_path("report", "/tmp/report.pdf");
    let mut buffer = vec![5u8; 2];
    assert_eq!(data.write_to_buffer(&mut buffer), Err(Error::Other));
    assert_eq!(buffer, vec![5, 5]);

    let empty = DimensionData::from_buffer_nofile("nothing", &[]);
    let mut buffer = Vec::new();
    assert_eq!(empty.write_to_buffer(&mut buffer), Ok(()));
    assert!(buffer.is_empty());
}

#[test]
fn ffi_array_is_read_by_index() {
    let array = warp_events::ffi_array::FFIArray::new(vec![10u32, 20, 30]);
    assert_eq!(array.length(), 3);
    assert_eq!(array.get(0), Some(&10));
    assert_eq!(array.get(2), Some(&30));
    assert_eq!(array.get(3), None);
    let empty = warp_events::ffi_array::FFIArray::<u32>::new(Vec::new());
    assert_eq!(empty.length(), 0);
    assert_eq!(empty.get(0), None);
}
