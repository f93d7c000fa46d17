//! A directory of the in-memory filesystem: a list of files and directories
//! that are found by name.

use vstd::prelude::*;
use crate::clock::{fresh_id, is_random_id, now_millis};
use crate::error::Error;

verus! {

/// The two kinds of item a directory can hold.
#[derive(Clone, Copy, Debug, PartialEq, Eq, Structural)]
pub enum ItemType {
    File,
    Directory,
}

/// A file: a named leaf of the tree.
#[derive(Clone, Debug, PartialEq, Eq)]
pub struct File {
    /// A random identifier.
    pub id: u128,
    pub name: String,
    /// When the file was created, in milliseconds since the Unix epoch.
    pub create: i64,
    /// The size of the file's content in bytes.
    pub size: usize,
}

/// An item of a directory.
#[derive(Debug, PartialEq, Eq)]
pub enum Item {
    File(File),
    Directory(Directory),
}

/// A directory: a named list of items.
#[derive(Debug, PartialEq, Eq)]
pub struct Directory {
    /// A random identifier.
    pub id: u128,
    pub name: String,
    /// When the directory was created, in milliseconds since the Unix epoch.
    pub create: i64,
    pub content: Vec<Item>,
}

/// The name of an item.
pub open spec fn name_of(item: Item) -> Seq<char> {
    match item {
        Item::File(file) => file.name@,
        Item::Directory(directory) => directory.name@,
    }
}

/// How many of the first `n` items bear `name`.
pub open spec fn occurrences_upto(content: Seq<Item>, name: Seq<char>, n: nat) -> nat
    recommends
        n <= content.len(),
    decreases n,
{
    if n == 0 {
        0
    } else {
        let before = occurrences_upto(content, name, (n - 1) as nat);
        if name_of(content[n - 1]) == name {
            before + 1
        } else {
            before
        }
    }
}

/// How many items bear `name`.
pub open spec fn occurrences(content: Seq<Item>, name: Seq<char>) -> nat {
    occurrences_upto(content, name, content.len())
}

/// `at` is the place of the first item that bears `name`.
pub open spec fn is_first(content: Seq<Item>, name: Seq<char>, at: int) -> bool {
    &&& 0 <= at < content.len()
    &&& name_of(content[at]) == name
    &&& forall|j: int| 0 <= j < at ==> name_of(#[trigger] content[j]) != name
}

/// No item bears `name`.
pub open spec fn is_absent(content: Seq<Item>, name: Seq<char>) -> bool {
    forall|j: int| 0 <= j < content.len() ==> name_of(#[trigger] content[j]) != name
}

/// The place of the first item that bears `name`, where there is one.
pub open spec fn first_place(content: Seq<Item>, name: Seq<char>) -> int {
    choose|at: int| is_first(content, name, at)
}

/// What looking up `name` in a list of items gives: the first item that
/// bears the name, provided exactly one item does.
pub open spec fn lookup(content: Seq<Item>, name: Seq<char>) -> Result<Item, Error> {
    if occurrences(content, name) == 1 {
        Ok(content[first_place(content, name)])
    } else {
        Err(Error::Other)
    }
}

/// The names along a path: the runs of characters between its `/`
/// separators, leaving out empty runs.
pub open spec fn components(path: Seq<char>) -> Seq<Seq<char>>
    decreases path.len(),
{
    if path.len() == 0 {
        Seq::empty()
    } else if path.last() == '/' {
        components(path.drop_last())
    } else if path.len() > 1 && path[path.len() - 2] != '/' {
        let before = components(path.drop_last());
        before.drop_last().push(before.last().push(path.last()))
    } else {
        components(path.drop_last()).push(seq![path.last()])
    }
}

/// The item that the names `parts` lead to, starting in `directory`: each
/// name but the last is looked up and entered if it is a directory; a file
/// met on the way is the result, whatever names follow.
pub open spec fn resolve(directory: Directory, parts: Seq<Seq<char>>) -> Result<Item, Error>
    decreases parts.len(),
{
    if parts.len() == 0 {
        Err(Error::NotFound)
    } else {
        match lookup(directory.content@, parts[0]) {
            Err(error) => Err(error),
            Ok(item) => match item {
                Item::Directory(inner) => if parts.len() > 1 {
                    resolve(inner, parts.drop_first())
                } else {
                    Ok(item)
                },
                Item::File(_) => Ok(item),
            },
        }
    }
}

/// `after` is `before` with the item that `parts` lead to replaced by
/// `item`, and nothing else changed. Where the names lead nowhere the two
/// are the same.
pub open spec fn grafted(
    before: Directory,
    after: Directory,
    parts: Seq<Seq<char>>,
    item: Item,
) -> bool
    decreases parts.len(),
{
    &&& after.id == before.id
    &&& after.name == before.name
    &&& after.create == before.create
    &&& if parts.len() == 0 {
        after.content@ == before.content@
    } else {
        match lookup(before.content@, parts[0]) {
            Err(_) => after.content@ == before.content@,
            Ok(found) => {
                let at = first_place(before.content@, parts[0]);
                match found {
                    Item::Directory(inner) => if parts.len() > 1 {
                        &&& after.content@.len() == before.content@.len()
                        &&& forall|j: int|
                            0 <= j < before.content@.len() && j != at
                                ==> #[trigger] after.content@[j] == before.content@[j]
                        &&& after.content@[at] matches Item::Directory(entered)
                        &&& grafted(inner, entered, parts.drop_first(), item)
                    } else {
                        after.content@ == before.content@.update(at, item)
                    },
                    Item::File(_) => after.content@ == before.content@.update(at, item),
                }
            },
        }
    }
}

/// The size of the first `n` items of a directory, with all that the
/// directories among them hold.
pub open spec fn size_upto(directory: Directory, n: nat) -> nat
    decreases directory, n,
{
    if n == 0 || n > directory.content@.len() {
        0
    } else {
        size_upto(directory, (n - 1) as nat) + match directory.content@[n - 1] {
            Item::File(file) => file.size as nat,
            Item::Directory(inner) => size_upto(inner, inner.content@.len()),
        }
    }
}

/// The size of all that a directory holds.
pub open spec fn total_size(directory: Directory) -> nat {
    size_upto(directory, directory.content@.len())
}

/// The size of an item: a file's own size, a directory's total size.
pub open spec fn size_of(item: Item) -> nat {
    match item {
        Item::File(file) => file.size as nat,
        Item::Directory(inner) => total_size(inner),
    }
}

/// The size of a directory's first items grows with their number.
pub proof fn lemma_size_grows(directory: Directory, m: nat, n: nat)
    requires
        m <= n <= directory.content@.len(),
    ensures
        size_upto(directory, m) <= size_upto(directory, n),
    decreases n,
{
    if m < n {
        lemma_size_grows(directory, m, (n - 1) as nat);
    }
}

/// `copy` is a copy of `source`: the same identifier, name and time, and
/// item by item a copy of its content.
pub open spec fn alike(source: Directory, copy: Directory) -> bool
    decreases source,
{
    &&& copy.id == source.id
    &&& copy.name@ == source.name@
    &&& copy.create == source.create
    &&& copy.content@.len() == source.content@.len()
    &&& forall|j: int|
        0 <= j < source.content@.len() ==> match (
            #[trigger] source.content@[j],
            copy.content@[j],
        ) {
            (Item::File(a), Item::File(b)) => a == b,
            (Item::Directory(a), Item::Directory(b)) => alike(a, b),
            _ => false,
        }
}

/// The texts of a list of strings.
pub open spec fn texts(parts: Seq<String>) -> Seq<Seq<char>> {
    parts.map_values(|part: String| part@)
}

/// The first place of a name is unique.
pub proof fn lemma_first_place(content: Seq<Item>, name: Seq<char>, at: int)
    requires
        is_first(content, name, at),
    ensures
        first_place(content, name) == at,
{
    let chosen = first_place(content, name);
    assert(is_first(content, name, chosen));
    if chosen < at {
        assert(name_of(content[chosen]) != name);
    } else if at < chosen {
        assert(name_of(content[at]) != name);
    }
}

/// A run of characters without a separator, which begins the path or
/// follows a separator, is the last name of the path read so far.
pub proof fn lemma_components_run(path: Seq<char>, start: int, end: int)
    requires
        0 <= start <= end <= path.len(),
        start == 0 || path[start - 1] == '/',
        forall|j: int| start <= j < end ==> path[j] != '/',
    ensures
        components(path.take(end)) == if start < end {
            components(path.take(start)).push(path.subrange(start, end))
        } else {
            components(path.take(start))
        },
    decreases end - start,
{
    if start < end {
        let read = path.take(end);
        assert(read.drop_last() == path.take(end - 1));
        assert(read.last() == path[end - 1]);
        lemma_components_run(path, start, end - 1);
        if start < end - 1 {
            assert(read[read.len() - 2] == path[end - 2]);
            assert(path.subrange(start, end - 1).push(path[end - 1]) == path.subrange(
                start,
                end,
            ));
            let before = components(path.take(end - 1));
            assert(before.drop_last() == components(path.take(start)));
        } else {
            assert(seq![path[end - 1]] == path.subrange(start, end));
            if start > 0 {
                assert(read[read.len() - 2] == path[start - 1]);
            }
        }
    }
}

/// A name is absent exactly when it occurs zero times.
pub proof fn lemma_occurrences_absent(content: Seq<Item>, name: Seq<char>, n: nat)
    requires
        n <= content.len(),
    ensures
        occurrences_upto(content, name, n) == 0 <==> forall|j: int|
            0 <= j < n ==> name_of(#[trigger] content[j]) != name,
    decreases n,
{
    if n > 0 {
        lemma_occurrences_absent(content, name, (n - 1) as nat);
    }
}

impl File {
    /// An empty file called `name`.
    pub fn new(name: &str) -> (file: Self)
        ensures
            file.name@ == name@,
            file.size == 0,
            is_random_id(file.id),
    {
        File { id: fresh_id(), name: name.to_owned(), create: now_millis(), size: 0 }
    }
}

impl Item {
    /// The item's name.
    pub fn name(&self) -> (name: String)
        ensures
            name@ == name_of(*self),
    {
        match self {
            Item::File(file) => file.name.clone(),
            Item::Directory(directory) => directory.name.clone(),
        }
    }

    /// Whether the item is a file or a directory.
    pub fn item_type(&self) -> (kind: ItemType)
        ensures
            kind == (match *self {
                Item::File(_) => ItemType::File,
                Item::Directory(_) => ItemType::Directory,
            }),
    {
        match self {
            Item::File(_) => ItemType::File,
            Item::Directory(_) => ItemType::Directory,
        }
    }

    /// Whether the item bears `name`.
    pub fn is_named(&self, name: &String) -> (same: bool)
        ensures
            same == (name_of(*self) == name@),
    {
        match self {
            Item::File(file) => file.name == *name,
            Item::Directory(directory) => directory.name == *name,
        }
    }

    /// The size of the item: a file's own size, a directory's total size.
    pub fn size(&self) -> (size: usize)
        requires
            size_of(*self) <= usize::MAX,
        ensures
            size == size_of(*self),
    {
        match self {
            Item::File(file) => file.size,
            Item::Directory(directory) => directory.size(),
        }
    }

    /// The item as a directory; a file is not one.
    pub fn to_directory(&self) -> (directory: Result<&Directory, Error>)
        ensures
            match *self {
                Item::Directory(d) => directory == Ok::<&Directory, Error>(&d),
                Item::File(_) => directory == Err::<&Directory, Error>(Error::Other),
            },
    {
        match self {
            Item::Directory(d) => Ok(d),
            Item::File(_) => Err(Error::Other),
        }
    }

    /// The item as a file; a directory is not one.
    pub fn to_file(&self) -> (file: Result<&File, Error>)
        ensures
            match *self {
                Item::File(f) => file == Ok::<&File, Error>(&f),
                Item::Directory(_) => file == Err::<&File, Error>(Error::Other),
            },
    {
        match self {
            Item::File(f) => Ok(f),
            Item::Directory(_) => Err(Error::Other),
        }
    }
}

impl Directory {
    /// An empty directory called `name`.
    pub fn new(name: &str) -> (directory: Self)
        ensures
            directory.name@ == name@,
            directory.content@.len() == 0,
            is_random_id(directory.id),
    {
        Directory {
            id: fresh_id(),
            name: name.to_owned(),
            create: now_millis(),
            content: Vec::new(),
        }
    }

    /// The directory's name.
    pub fn name(&self) -> (name: String)
        ensures
            name@ == self.name@,
    {
        self.name.clone()
    }

    /// The kind of item a directory is.
    pub fn item_type(&self) -> (kind: ItemType)
        ensures
            kind == ItemType::Directory,
    {
        ItemType::Directory
    }

    /// When the directory was created.
    pub fn create(&self) -> (time: i64)
        ensures
            time == self.create,
    {
        self.create
    }

    /// The size of all that the directory holds.
    pub fn size(&self) -> (size: usize)
        requires
            total_size(*self) <= usize::MAX,
        ensures
            size == total_size(*self),
        decreases self,
    {
        let mut size: usize = 0;
        let mut i: usize = 0;
        while i < self.content.len()
            invariant
                i <= self.content@.len(),
                size == size_upto(*self, i as nat),
                total_size(*self) <= usize::MAX,
            decreases self.content@.len() - i,
        {
            proof {
                lemma_size_grows(*self, (i + 1) as nat, self.content@.len());
            }
            let part = match &self.content[i] {
                Item::File(file) => file.size,
                Item::Directory(inner) => inner.size(),
            };
            size = size + part;
            i = i + 1;
        }
        size
    }

    /// A copy of the directory and of all that it holds.
    pub fn duplicate(&self) -> (copy: Directory)
        ensures
            alike(*self, copy),
        decreases self,
    {
        let mut content: Vec<Item> = Vec::new();
        let mut i: usize = 0;
        while i < self.content.len()
            invariant
                i <= self.content@.len(),
                content@.len() == i,
                forall|j: int|
                    0 <= j < i ==> match (#[trigger] self.content@[j], content@[j]) {
                        (Item::File(a), Item::File(b)) => a == b,
                        (Item::Directory(a), Item::Directory(b)) => alike(a, b),
                        _ => false,
                    },
            decreases self.content@.len() - i,
        {
            let item = match &self.content[i] {
                Item::File(file) => Item::File(
                    File {
                        id: file.id,
                        name: file.name.clone(),
                        create: file.create,
                        size: file.size,
                    },
                ),
                Item::Directory(inner) => Item::Directory(inner.duplicate()),
            };
            content.push(item);
            i = i + 1;
        }
        Directory { id: self.id, name: self.name.clone(), create: self.create, content }
    }

    /// The items of the directory.
    pub fn get_content(&self) -> (content: &Vec<Item>)
        ensures
            *content == self.content,
    {
        &self.content
    }

    /// The place of the first item that bears `name`, if there is one.
    pub fn position(&self, name: &str) -> (at: Option<usize>)
        ensures
            match at {
                Some(at) => is_first(self.content@, name@, at as int),
                None => is_absent(self.content@, name@),
            },
    {
        let wanted = name.to_owned();
        let mut i: usize = 0;
        while i < self.content.len()
            invariant
                i <= self.content@.len(),
                wanted@ == name@,
                forall|j: int| 0 <= j < i ==> name_of(#[trigger] self.content@[j]) != name@,
            decreases self.content@.len() - i,
        {
            if self.content[i].is_named(&wanted) {
                return Some(i);
            }
            i = i + 1;
        }
        None
    }

    /// Whether exactly one item bears `name`.
    pub fn exist(&self, name: &str) -> (found: bool)
        ensures
            found == (occurrences(self.content@, name@) == 1),
    {
        let wanted = name.to_owned();
        let mut count: usize = 0;
        let mut i: usize = 0;
        while i < self.content.len()
            invariant
                i <= self.content@.len(),
                wanted@ == name@,
                count == occurrences_upto(self.content@, name@, i as nat),
                count <= i,
            decreases self.content@.len() - i,
        {
            if self.content[i].is_named(&wanted) {
                count = count + 1;
            }
            i = i + 1;
        }
        count == 1
    }

    /// Adds `item` at the end, unless exactly one item already bears its
    /// name.
    pub fn insert(&mut self, item: Item) -> (done: Result<(), Error>)
        ensures
            final(self).id == old(self).id,
            final(self).name == old(self).name,
            final(self).create == old(self).create,
            occurrences(old(self).content@, name_of(item)) == 1 ==> done == Err::<(), Error>(
                Error::Other,
            ) && final(self).content@ == old(self).content@,
            occurrences(old(self).content@, name_of(item)) != 1 ==> done == Ok::<(), Error>(())
                && final(self).content@ == old(self).content@.push(item),
    {
        let name = item.name();
        if self.exist(name.as_str()) {
            return Err(Error::Other);
        }
        self.content.push(item);
        Ok(())
    }

    /// Takes out the first item that bears `name`.
    pub fn remove(&mut self, name: &str) -> (taken: Result<Item, Error>)
        ensures
            final(self).id == old(self).id,
            final(self).name == old(self).name,
            final(self).create == old(self).create,
            match taken {
                Ok(item) => {
                    let at = first_place(old(self).content@, name@);
                    &&& is_first(old(self).content@, name@, at)
                    &&& item == old(self).content@[at]
                    &&& final(self).content@ == old(self).content@.remove(at)
                },
                Err(error) => {
                    &&& error == Error::NotFound
                    &&& is_absent(old(self).content@, name@)
                    &&& final(self).content@ == old(self).content@
                },
            },
    {
        match self.position(name) {
            Some(at) => {
                proof {
                    lemma_first_place(self.content@, name@, at as int);
                }
                let item = self.content.remove(at);
                Ok(item)
            },
            None => Err(Error::NotFound),
        }
    }

    /// The first item that bears `name`, provided exactly one item does.
    pub fn get_item(&self, name: &str) -> (found: Result<&Item, Error>)
        ensures
            match found {
                Ok(item) => lookup(self.content@, name@) == Ok::<Item, Error>(*item),
                Err(error) => lookup(self.content@, name@) == Err::<Item, Error>(error),
            },
    {
        if !self.exist(name) {
            return Err(Error::Other);
        }
        match self.position(name) {
            Some(at) => {
                proof {
                    lemma_first_place(self.content@, name@, at as int);
                }
                Ok(&self.content[at])
            },
            None => {
                proof {
                    lemma_occurrences_absent(self.content@, name@, self.content@.len());
                }
                Err(Error::Other)
            },
        }
    }

    /// The items of the directory, to be changed in place.
    pub fn get_content_mut(&mut self) -> (content: &mut Vec<Item>)
        ensures
            *content == old(self).content,
            final(self).content == *final(content),
            final(self).id == old(self).id,
            final(self).name == old(self).name,
            final(self).create == old(self).create,
    {
        &mut self.content
    }

    /// The first item that bears `name`, provided exactly one item does, to
    /// be changed in place.
    pub fn get_item_mut(&mut self, name: &str) -> (found: Result<&mut Item, Error>)
        ensures
            final(self).id == old(self).id,
            final(self).name == old(self).name,
            final(self).create == old(self).create,
            match found {
                Ok(item) => {
                    let at = first_place(old(self).content@, name@);
                    &&& lookup(old(self).content@, name@) == Ok::<Item, Error>(*item)
                    &&& is_first(old(self).content@, name@, at)
                    &&& final(self).content@ == old(self).content@.update(at, *final(item))
                },
                Err(error) => {
                    &&& lookup(old(self).content@, name@) == Err::<Item, Error>(error)
                    &&& *final(self) == *old(self)
                },
            },
    {
        if !self.exist(name) {
            return Err(Error::Other);
        }
        match self.position(name) {
            Some(at) => {
                proof {
                    lemma_first_place(self.content@, name@, at as int);
                }
                Ok(&mut self.content[at])
            },
            None => {
                proof {
                    lemma_occurrences_absent(self.content@, name@, self.content@.len());
                }
                Err(Error::Other)
            },
        }
    }

    /// The item that `path` leads to from this directory. The path's names
    /// are separated by `/`; empty names are passed over. A path without a
    /// name leads nowhere; a file met before the last name is the result.
    pub fn get_item_from_path(&self, path: &str) -> (found: Result<&Item, Error>)
        ensures
            match found {
                Ok(item) => resolve(*self, components(path@)) == Ok::<Item, Error>(*item),
                Err(error) => resolve(*self, components(path@)) == Err::<Item, Error>(error),
            },
    {
        let parts = split_path(path);
        assert(texts(parts@).skip(0) == texts(parts@));
        self.follow(&parts, 0)
    }

    /// The item that `path` leads to from this directory, to be changed in
    /// place.
    pub fn get_item_mut_from_path(&mut self, path: &str) -> (found: Result<&mut Item, Error>)
        ensures
            match found {
                Ok(item) => {
                    &&& resolve(*old(self), components(path@)) == Ok::<Item, Error>(*item)
                    &&& grafted(*old(self), *final(self), components(path@), *final(item))
                },
                Err(error) => {
                    &&& resolve(*old(self), components(path@)) == Err::<Item, Error>(error)
                    &&& *final(self) == *old(self)
                },
            },
    {
        let parts = split_path(path);
        assert(texts(parts@).skip(0) == texts(parts@));
        match self.follow(&parts, 0) {
            Err(error) => {
                return Err(error);
            },
            Ok(_) => {},
        }
        self.follow_mut(&parts, 0)
    }

    /// The item that the names `parts[from..]` lead to from this directory,
    /// to be changed in place, where they lead to one.
    fn follow_mut<'a>(&'a mut self, parts: &Vec<String>, from: usize) -> (found: Result<
        &'a mut Item,
        Error,
    >)
        requires
            from <= parts@.len(),
            resolve(*old(self), texts(parts@).skip(from as int)) is Ok,
        ensures
            found matches Ok(item) && resolve(*old(self), texts(parts@).skip(from as int)) == Ok::<
                Item,
                Error,
            >(*item) && grafted(
                *old(self),
                *final(self),
                texts(parts@).skip(from as int),
                *final(item),
            ),
        decreases parts@.len() - from,
    {
        let ghost rest = texts(parts@).skip(from as int);
        if from >= parts.len() {
            return Err(Error::NotFound);
        }
        assert(rest[0] == parts@[from as int]@);
        assert(rest.drop_first() == texts(parts@).skip(from + 1));
        let more = from + 1 < parts.len();
        match self.get_item_mut(parts[from].as_str()) {
            Err(error) => Err(error),
            Ok(item) => {
                if more {
                    match item {
                        Item::Directory(inner) => inner.follow_mut(parts, from + 1),
                        Item::File(_) => Ok(item),
                    }
                } else {
                    Ok(item)
                }
            },
        }
    }

    /// The item that the names `parts[from..]` lead to from this directory.
    pub fn follow<'a>(&'a self, parts: &Vec<String>, from: usize) -> (found: Result<
        &'a Item,
        Error,
    >)
        requires
            from <= parts@.len(),
        ensures
            match found {
                Ok(item) => resolve(*self, texts(parts@).skip(from as int)) == Ok::<Item, Error>(
                    *item,
                ),
                Err(error) => resolve(*self, texts(parts@).skip(from as int)) == Err::<
                    Item,
                    Error,
                >(error),
            },
        decreases parts@.len() - from,
    {
        let ghost rest = texts(parts@).skip(from as int);
        if from >= parts.len() {
            return Err(Error::NotFound);
        }
        assert(rest[0] == parts@[from as int]@);
        assert(rest.drop_first() == texts(parts@).skip(from + 1));
        let item = self.get_item(parts[from].as_str())?;
        if from + 1 < parts.len() {
            match item {
                Item::Directory(inner) => inner.follow(parts, from + 1),
                Item::File(_) => Ok(item),
            }
        } else {
            Ok(item)
        }
    }
}

impl Clone for Directory {
    fn clone(&self) -> (copy: Self)
        ensures
            alike(*self, copy),
    {
        self.duplicate()
    }
}

impl Clone for Item {
    fn clone(&self) -> (copy: Self)
        ensures
            match (*self, copy) {
                (Item::File(a), Item::File(b)) => a == b,
                (Item::Directory(a), Item::Directory(b)) => alike(a, b),
                _ => false,
            },
    {
        match self {
            Item::File(file) => Item::File(
                File { id: file.id, name: file.name.clone(), create: file.create, size: file.size },
            ),
            Item::Directory(inner) => Item::Directory(inner.duplicate()),
        }
    }
}

/// Splits a path into its names.
pub fn split_path(path: &str) -> (parts: Vec<String>)
    ensures
        texts(parts@) == components(path@),
{
    let n = path.unicode_len();
    let mut parts: Vec<String> = Vec::new();
    let mut start: usize = 0;
    let mut i: usize = 0;
    assert(path@.take(0) == Seq::<char>::empty());
    while i < n
        invariant
            n == path@.len(),
            0 <= start <= i <= n,
            start == 0 || path@[start - 1] == '/',
            forall|j: int| start <= j < i ==> path@[j] != '/',
            texts(parts@) == components(path@.take(start as int)),
        decreases n - i,
    {
        if path.get_char(i) == '/' {
            proof {
                lemma_components_run(path@, start as int, i as int);
                assert(path@.take(i + 1).drop_last() == path@.take(i as int));
            }
            if start < i {
                let ghost before = parts@;
                let part = path.substring_char(start, i).to_owned();
                parts.push(part);
                assert(texts(parts@) == texts(before).push(part@));
            }
            start = i + 1;
        }
        i = i + 1;
    }
    proof {
        lemma_components_run(path@, start as int, n as int);
        assert(path@.take(n as int) == path@);
    }
    if start < n {
        let ghost before = parts@;
        let part = path.substring_char(start, n).to_owned();
        parts.push(part);
        assert(texts(parts@) == texts(before).push(part@));
    }
    parts
}

} // verus!
