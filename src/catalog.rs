//! The catalog: libraries, file records, tag nodes, file-tag links and tasks,
//! held as tables whose row ids are allocated in insertion order from 1.

use vstd::prelude::*;

verus! {

/// Largest row id a table can hand out.
pub const ID_LIMIT: usize = 2147483647;

/// Whether a cataloged file was seen by the latest scan.
#[derive(Clone, Copy, Debug, PartialEq, Eq, Structural)]
pub enum FileStatus {
    Lost,
    Active,
}

impl FileStatus {
    /// The stored code: 1 for `Active`, 0 for `Lost`.
    pub fn code(&self) -> (r: i32)
        ensures
            r == (if *self == FileStatus::Active { 1i32 } else { 0i32 }),
    {
        match self {
            FileStatus::Active => 1,
            FileStatus::Lost => 0,
        }
    }
}

/// A configured root source of files.
pub struct Library {
    pub id: i32,
    pub name: String,
    pub protocol: String,
    pub base_path: String,
    pub config_json: Option<String>,
    /// Epoch seconds of the last scan, if any.
    pub last_scanned_at: Option<i64>,
}

/// A cataloged file, keyed by (library, directory part, file name).
pub struct FileEntry {
    pub id: i32,
    pub library_id: i32,
    /// Empty, or ending in `/`.
    pub parent_path: String,
    pub filename: String,
    pub extension: Option<String>,
    pub size: i64,
    /// Epoch seconds.
    pub mtime: i64,
    pub hash: Option<String>,
    pub status: FileStatus,
    /// Epoch seconds at which the record was created.
    pub indexed_at: i64,
}

/// A node of the tag forest; unique by (name, parent).
pub struct Tag {
    pub id: i32,
    pub name: String,
    pub category: String,
    pub parent_id: Option<i32>,
}

/// A link between a file and a tag, with its origin (`auto` or `manual`).
pub struct FileTagLink {
    pub file_id: i32,
    pub tag_id: i32,
    pub source: String,
}

/// Where a task stands: Pending, then Running, then Completed or Failed.
#[derive(Clone, Copy, Debug, PartialEq, Eq, Structural)]
pub enum TaskStatus {
    Pending,
    Running,
    Completed,
    Failed,
}

impl TaskStatus {
    /// The stored code: 0 to 3 in the order Pending, Running, Completed, Failed.
    pub fn code(&self) -> (r: i32)
        ensures
            r == task_status_code(*self),
    {
        match self {
            TaskStatus::Pending => 0,
            TaskStatus::Running => 1,
            TaskStatus::Completed => 2,
            TaskStatus::Failed => 3,
        }
    }
}

pub open spec fn task_status_code(s: TaskStatus) -> i32 {
    match s {
        TaskStatus::Pending => 0,
        TaskStatus::Running => 1,
        TaskStatus::Completed => 2,
        TaskStatus::Failed => 3,
    }
}

/// A unit of deferred derived-artifact work for one file.
pub struct Task {
    pub id: i64,
    pub file_id: i32,
    pub task_type: String,
    pub status: TaskStatus,
    /// Higher runs first.
    pub priority: i32,
    pub started_at: Option<i64>,
    pub completed_at: Option<i64>,
    pub error_msg: Option<String>,
}

pub open spec fn opt_view(o: Option<String>) -> Option<Seq<char>> {
    match o {
        Some(s) => Some(s@),
        None => None,
    }
}

pub struct FileView {
    pub id: i32,
    pub library_id: i32,
    pub parent_path: Seq<char>,
    pub filename: Seq<char>,
    pub extension: Option<Seq<char>>,
    pub size: i64,
    pub mtime: i64,
    pub hash: Option<Seq<char>>,
    pub status: FileStatus,
    pub indexed_at: i64,
}

pub struct TagView {
    pub id: i32,
    pub name: Seq<char>,
    pub category: Seq<char>,
    pub parent_id: Option<i32>,
}

pub struct LinkView {
    pub file_id: i32,
    pub tag_id: i32,
    pub source: Seq<char>,
}

pub struct TaskView {
    pub id: i64,
    pub file_id: i32,
    pub task_type: Seq<char>,
    pub status: TaskStatus,
    pub priority: i32,
    pub started_at: Option<i64>,
    pub completed_at: Option<i64>,
    pub error_msg: Option<Seq<char>>,
}

impl View for FileEntry {
    type V = FileView;

    open spec fn view(&self) -> FileView {
        FileView {
            id: self.id,
            library_id: self.library_id,
            parent_path: self.parent_path@,
            filename: self.filename@,
            extension: opt_view(self.extension),
            size: self.size,
            mtime: self.mtime,
            hash: opt_view(self.hash),
            status: self.status,
            indexed_at: self.indexed_at,
        }
    }
}

impl View for Tag {
    type V = TagView;

    open spec fn view(&self) -> TagView {
        TagView { id: self.id, name: self.name@, category: self.category@, parent_id: self.parent_id }
    }
}

impl View for FileTagLink {
    type V = LinkView;

    open spec fn view(&self) -> LinkView {
        LinkView { file_id: self.file_id, tag_id: self.tag_id, source: self.source@ }
    }
}

impl View for Task {
    type V = TaskView;

    open spec fn view(&self) -> TaskView {
        TaskView {
            id: self.id,
            file_id: self.file_id,
            task_type: self.task_type@,
            status: self.status,
            priority: self.priority,
            started_at: self.started_at,
            completed_at: self.completed_at,
            error_msg: opt_view(self.error_msg),
        }
    }
}

pub open spec fn tag_views(tags: Seq<Tag>) -> Seq<TagView> {
    tags.map_values(|t: Tag| t@)
}

/// The four tables of the catalog.
pub struct Catalog {
    pub files: Vec<FileEntry>,
    pub tags: Vec<Tag>,
    pub file_tags: Vec<FileTagLink>,
    pub tasks: Vec<Task>,
}

pub struct CatalogView {
    pub files: Seq<FileView>,
    pub tags: Seq<TagView>,
    pub links: Seq<LinkView>,
    pub tasks: Seq<TaskView>,
}

impl View for Catalog {
    type V = CatalogView;

    open spec fn view(&self) -> CatalogView {
        CatalogView {
            files: self.files@.map_values(|f: FileEntry| f@),
            tags: tag_views(self.tags@),
            links: self.file_tags@.map_values(|l: FileTagLink| l@),
            tasks: self.tasks@.map_values(|t: Task| t@),
        }
    }
}

/// The path a record stands for: directory part and file name.
pub open spec fn file_path(f: FileView) -> Seq<char> {
    f.parent_path + f.filename
}

/// Row ids follow insertion order from 1; no two records of one library
/// stand for the same path.
pub open spec fn files_wf(files: Seq<FileView>) -> bool {
    &&& files.len() <= ID_LIMIT
    &&& forall|k: int| 0 <= k < files.len() ==> #[trigger] files[k].id == k + 1
    &&& forall|a: int, b: int|
        0 <= a < b < files.len() ==> !(files[a].library_id == files[b].library_id && #[trigger] file_path(files[a])
            == #[trigger] file_path(files[b]))
}

/// Row ids follow insertion order from 1; a parent is an earlier node; no two
/// nodes share name and parent.
pub open spec fn tags_wf(tags: Seq<TagView>) -> bool {
    &&& tags.len() <= ID_LIMIT
    &&& forall|k: int| 0 <= k < tags.len() ==> #[trigger] tags[k].id == k + 1
    &&& forall|k: int|
        0 <= k < tags.len() ==> match #[trigger] tags[k].parent_id {
            Some(p) => 1 <= p <= k,
            None => true,
        }
    &&& forall|a: int, b: int|
        0 <= a < b < tags.len() ==> !(#[trigger] tags[a].name == #[trigger] tags[b].name
            && tags[a].parent_id == tags[b].parent_id)
}

/// At most one link per (file, tag).
pub open spec fn links_wf(links: Seq<LinkView>) -> bool {
    forall|a: int, b: int|
        0 <= a < b < links.len() ==> !(#[trigger] links[a].file_id == #[trigger] links[b].file_id
            && links[a].tag_id == links[b].tag_id)
}

/// Row ids follow insertion order from 1.
pub open spec fn tasks_wf(tasks: Seq<TaskView>) -> bool {
    &&& tasks.len() <= ID_LIMIT
    &&& forall|k: int| 0 <= k < tasks.len() ==> #[trigger] tasks[k].id == k + 1
}

impl CatalogView {
    pub open spec fn wf(self) -> bool {
        &&& files_wf(self.files)
        &&& tags_wf(self.tags)
        &&& links_wf(self.links)
        &&& tasks_wf(self.tasks)
    }
}

/// Why a catalog operation was refused.
#[derive(Clone, Copy, Debug, PartialEq, Eq, Structural)]
pub enum CatalogError {
    /// A tag path with no non-empty segment.
    EmptyPath,
    /// A table has no row id left for what the operation would insert.
    Full,
    /// No task has the given id.
    TaskNotFound,
    /// The task is not in the state the transition starts from.
    InvalidTransition,
}

/// A freshly queued task.
pub open spec fn pending_task(id: nat, file_id: i32, task_type: Seq<char>, priority: i32) -> TaskView {
    TaskView {
        id: id as i64,
        file_id,
        task_type,
        status: TaskStatus::Pending,
        priority,
        started_at: None,
        completed_at: None,
        error_msg: None,
    }
}

impl Catalog {
    /// An empty catalog.
    pub fn new() -> (r: Catalog)
        ensures
            r@.wf(),
            r@.files.len() == 0,
            r@.tags.len() == 0,
            r@.links.len() == 0,
            r@.tasks.len() == 0,
    {
        let r = Catalog { files: Vec::new(), tags: Vec::new(), file_tags: Vec::new(), tasks: Vec::new() };
        assert(r@.files =~= Seq::empty());
        assert(r@.tags =~= Seq::empty());
        assert(r@.links =~= Seq::empty());
        assert(r@.tasks =~= Seq::empty());
        r
    }

    /// Appends a Pending task and returns its id.
    pub(crate) fn push_task(&mut self, file_id: i32, task_type: String, priority: i32) -> (r: i64)
        requires
            old(self)@.wf(),
            old(self)@.tasks.len() < ID_LIMIT,
        ensures
            final(self)@.wf(),
            final(self)@.files == old(self)@.files,
            final(self)@.tags == old(self)@.tags,
            final(self)@.links == old(self)@.links,
            final(self)@.tasks == old(self)@.tasks.push(
                pending_task(old(self)@.tasks.len() + 1, file_id, task_type@, priority),
            ),
            r == old(self)@.tasks.len() + 1,
    {
        let id = (self.tasks.len() + 1) as i64;
        let ghost t0 = self@.tasks;
        let ghost tt = task_type@;
        let task = Task {
            id,
            file_id,
            task_type,
            status: TaskStatus::Pending,
            priority,
            started_at: None,
            completed_at: None,
            error_msg: None,
        };
        self.tasks.push(task);
        assert(self@.tasks =~= t0.push(pending_task(t0.len() + 1, file_id, tt, priority)));
        id
    }
}

} // verus!
