//! The file namespace: names, the files they lead to, and how a file is
//! opened, linked, unlinked, read and written.

use vstd::prelude::*;
use crate::fault::Fault;

verus! {

/// The flag field with no flag set: open for reading only.
pub const O_RDONLY: u32 = 0;

/// Flag bit: open for writing only.
pub const O_WRONLY: u32 = 1;

/// Flag bit: open for reading and writing.
pub const O_RDWR: u32 = 2;

/// Flag bit: create the file if the name is free, empty it otherwise.
pub const O_CREATE: u32 = 512;

/// Flag bit: empty the file on opening.
pub const O_TRUNC: u32 = 1024;

/// The flags of an open request, decoded. A request with no flag at all
/// opens for reading only.
#[derive(Clone, Copy, Debug, PartialEq, Eq, Structural)]
pub struct OpenFlags {
    pub write_only: bool,
    pub read_write: bool,
    pub create: bool,
    pub truncate: bool,
}

impl OpenFlags {
    /// The flag field in which exactly these flags are set.
    pub open spec fn spec_bits(self) -> int {
        (if self.write_only {
            O_WRONLY as int
        } else {
            0
        }) + (if self.read_write {
            O_RDWR as int
        } else {
            0
        }) + (if self.create {
            O_CREATE as int
        } else {
            0
        }) + (if self.truncate {
            O_TRUNC as int
        } else {
            0
        })
    }

    /// Whether `bits` sets no bit but the four flag bits: the flags it
    /// stands for make up all of it.
    pub open spec fn bits_valid(bits: int) -> bool {
        Self::of_bits(bits).spec_bits() == bits
    }

    /// The flags that `bits` stands for.
    pub open spec fn of_bits(bits: int) -> OpenFlags {
        OpenFlags {
            write_only: (bits / (O_WRONLY as int)) % 2 == 1,
            read_write: (bits / (O_RDWR as int)) % 2 == 1,
            create: (bits / (O_CREATE as int)) % 2 == 1,
            truncate: (bits / (O_TRUNC as int)) % 2 == 1,
        }
    }

    /// Whether a file opened with these flags can be read: always, unless
    /// it is opened for writing only.
    pub open spec fn readable(self) -> bool {
        !self.write_only
    }

    /// Whether a file opened with these flags can be written: as soon as
    /// any flag is set.
    pub open spec fn writable(self) -> bool {
        self.write_only || self.read_write || self.create || self.truncate
    }

    /// Decodes the flag field of an open request; `None` where a bit
    /// outside the four flags is set.
    pub fn from_bits(bits: u32) -> (flags: Option<OpenFlags>)
        ensures
            flags == if Self::bits_valid(bits as int) {
                Some(Self::of_bits(bits as int))
            } else {
                None::<OpenFlags>
            },
    {
        let flags = OpenFlags {
            write_only: (bits / O_WRONLY) % 2 == 1,
            read_write: (bits / O_RDWR) % 2 == 1,
            create: (bits / O_CREATE) % 2 == 1,
            truncate: (bits / O_TRUNC) % 2 == 1,
        };
        if flags.bits() == bits {
            Some(flags)
        } else {
            None
        }
    }

    /// The flag field in which exactly these flags are set.
    pub fn bits(self) -> (bits: u32)
        ensures
            bits == self.spec_bits(),
    {
        let mut bits: u32 = 0;
        if self.write_only {
            bits = bits + O_WRONLY;
        }
        if self.read_write {
            bits = bits + O_RDWR;
        }
        if self.create {
            bits = bits + O_CREATE;
        }
        if self.truncate {
            bits = bits + O_TRUNC;
        }
        bits
    }

    /// Whether a file opened with these flags can be read.
    pub fn can_read(self) -> (yes: bool)
        ensures
            yes == self.readable(),
    {
        !self.write_only
    }

    /// Whether a file opened with these flags can be written.
    pub fn can_write(self) -> (yes: bool)
        ensures
            yes == self.writable(),
    {
        self.write_only || self.read_write || self.create || self.truncate
    }
}

/// One name in the namespace and the file it leads to.
pub struct Link {
    pub name: Seq<u8>,
    pub inode: usize,
}

/// Whether `name` is in use.
pub open spec fn named(links: Seq<Link>, name: Seq<u8>) -> bool {
    exists|i: int| 0 <= i < links.len() && (#[trigger] links[i]).name == name
}

/// Position of the link that carries `name`, where it is in use.
pub open spec fn position(links: Seq<Link>, name: Seq<u8>) -> int {
    choose|i: int| 0 <= i < links.len() && (#[trigger] links[i]).name == name
}

/// The file that `name` leads to, if it is in use.
pub open spec fn resolve(links: Seq<Link>, name: Seq<u8>) -> Option<usize> {
    if named(links, name) {
        Some(links[position(links, name)].inode)
    } else {
        None
    }
}

/// Number of names that lead to file `inode`.
pub open spec fn link_count(links: Seq<Link>, inode: usize) -> nat
    decreases links.len(),
{
    if links.len() == 0 {
        0
    } else {
        link_count(links.drop_last(), inode) + if links.last().inode == inode {
            1nat
        } else {
            0nat
        }
    }
}

/// A file's contents after `bytes` are written at `offset`: the bytes
/// replace what was there and extend the file as far as they reach; a gap
/// between the old end and `offset` is filled with zeroes. Writing nothing
/// changes nothing.
pub open spec fn overwritten(data: Seq<u8>, offset: int, bytes: Seq<u8>) -> Seq<u8> {
    if bytes.len() == 0 {
        data
    } else {
        Seq::new(
            if data.len() >= offset + bytes.len() {
                data.len()
            } else {
                (offset + bytes.len()) as nat
            },
            |i: int|
                if offset <= i < offset + bytes.len() {
                    bytes[i - offset]
                } else if i < data.len() {
                    data[i]
                } else {
                    0u8
                },
        )
    }
}

/// What a read of up to `len` bytes at `offset` finds in a file: the
/// bytes from `offset` on, as far as the file and `len` reach.
pub open spec fn readout(data: Seq<u8>, offset: int, len: int) -> Seq<u8> {
    if offset >= data.len() || len <= 0 {
        Seq::empty()
    } else if data.len() - offset <= len {
        data.skip(offset)
    } else {
        data.subrange(offset, offset + len)
    }
}

/// The state of the namespace as contracts see it.
pub struct FsView {
    /// The names, in the order in which they were made.
    pub links: Seq<Link>,
    /// The contents of each file, by inode number.
    pub files: Seq<Seq<u8>>,
}

impl FsView {
    /// No name is used twice, and every name leads to a file that exists.
    pub open spec fn wf(self) -> bool {
        &&& forall|i: int, j: int|
            0 <= i < j < self.links.len() ==> (#[trigger] self.links[i]).name != (#[trigger] self.links[j]).name
        &&& forall|i: int| 0 <= i < self.links.len() ==> (#[trigger] self.links[i]).inode < self.files.len()
    }

    /// The namespace with file `inode` emptied.
    pub open spec fn emptied(self, inode: usize) -> FsView {
        FsView { links: self.links, files: self.files.update(inode as int, Seq::empty()) }
    }

    /// The namespace after `name` is opened with `flags`: an existing file
    /// is emptied where creation or truncation is asked for, a missing one
    /// is made where creation is asked for.
    pub open spec fn after_open(self, name: Seq<u8>, flags: OpenFlags) -> FsView {
        match resolve(self.links, name) {
            Some(inode) => if flags.create || flags.truncate {
                self.emptied(inode)
            } else {
                self
            },
            None => if flags.create {
                FsView {
                    links: self.links.push(Link { name, inode: self.files.len() as usize }),
                    files: self.files.push(Seq::empty()),
                }
            } else {
                self
            },
        }
    }

    /// The file that an open of `name` with `flags` leads to, if it is
    /// granted.
    pub open spec fn opened(self, name: Seq<u8>, flags: OpenFlags) -> Option<usize> {
        match resolve(self.links, name) {
            Some(inode) => Some(inode),
            None => if flags.create {
                Some(self.files.len() as usize)
            } else {
                None
            },
        }
    }

    /// The namespace after `new` is made a second name for the file of
    /// `old`.
    pub open spec fn after_link(self, old: Seq<u8>, new: Seq<u8>) -> FsView {
        FsView {
            links: self.links.push(Link { name: new, inode: self.links[position(self.links, old)].inode }),
            files: self.files,
        }
    }

    /// The namespace after `name` is removed: a file that loses its last
    /// name is emptied.
    pub open spec fn after_unlink(self, name: Seq<u8>) -> FsView {
        let at = position(self.links, name);
        let inode = self.links[at].inode;
        let rest = self.links.remove(at);
        FsView {
            links: rest,
            files: if link_count(rest, inode) == 0 {
                self.files.update(inode as int, Seq::empty())
            } else {
                self.files
            },
        }
    }
}

/// What a file is, as its metadata reports it.
#[derive(Clone, Copy, Debug, PartialEq, Eq, Structural)]
pub enum StatMode {
    /// Neither of the others: a console.
    Null,
    /// A directory.
    Dir,
    /// An ordinary file.
    File,
}

/// The metadata of an open file.
#[derive(Clone, Copy, Debug, PartialEq, Eq, Structural)]
pub struct Stat {
    /// Number of the device that holds the file.
    pub dev: u64,
    /// Inode number.
    pub ino: u64,
    /// Kind of the file.
    pub mode: StatMode,
    /// Number of names that lead to the file.
    pub nlink: u32,
}

struct DirEntry {
    name: Vec<u8>,
    inode: usize,
}

/// The file namespace: a flat directory of names over files held in
/// memory.
pub struct FileSystem {
    entries: Vec<DirEntry>,
    files: Vec<Vec<u8>>,
}

impl View for FileSystem {
    type V = FsView;

    closed spec fn view(&self) -> FsView {
        FsView {
            links: Seq::new(
                self.entries@.len(),
                |i: int| Link { name: self.entries@[i].name@, inode: self.entries@[i].inode },
            ),
            files: Seq::new(self.files@.len(), |i: int| self.files@[i]@),
        }
    }
}

/// Whether two byte strings are the same.
pub fn same_bytes(a: &[u8], b: &[u8]) -> (same: bool)
    ensures
        same == (a@ == b@),
{
    if a.len() != b.len() {
        return false;
    }
    let mut i: usize = 0;
    while i < a.len()
        invariant
            i <= a@.len(),
            a@.len() == b@.len(),
            forall|k: int| 0 <= k < i ==> a@[k] == b@[k],
        decreases a.len() - i,
    {
        if a[i] != b[i] {
            return false;
        }
        i = i + 1;
    }
    assert(a@ =~= b@);
    true
}

impl FileSystem {
    /// An empty namespace.
    pub fn new() -> (fs: Self)
        ensures
            fs@.wf(),
            fs@.links == Seq::<Link>::empty(),
            fs@.files == Seq::<Seq<u8>>::empty(),
    {
        let fs = FileSystem { entries: Vec::new(), files: Vec::new() };
        assert(fs@.links =~= Seq::<Link>::empty());
        assert(fs@.files =~= Seq::<Seq<u8>>::empty());
        fs
    }

    /// Number of files that exist, named or not.
    pub fn file_count(&self) -> (n: usize)
        ensures
            n == self@.files.len(),
    {
        self.files.len()
    }

    /// Position of the entry that carries `name`.
    fn find(&self, name: &[u8]) -> (found: Option<usize>)
        requires
            self@.wf(),
        ensures
            found is Some <==> named(self@.links, name@),
            found matches Some(at) ==> at == position(self@.links, name@) && at < self@.links.len(),
    {
        let mut i: usize = 0;
        while i < self.entries.len()
            invariant
                i <= self.entries@.len(),
                self@.wf(),
                forall|k: int| 0 <= k < i ==> (#[trigger] self@.links[k]).name != name@,
            decreases self.entries.len() - i,
        {
            if same_bytes(self.entries[i].name.as_slice(), name) {
                proof {
                    assert(self@.links[i as int].name == name@);
                    let at = position(self@.links, name@);
                    assert(self@.links[at].name == name@);
                    assert(at == i);
                }
                return Some(i);
            }
            i = i + 1;
        }
        None
    }

    /// The file that `name` leads to, if the name is in use.
    pub fn lookup(&self, name: &[u8]) -> (inode: Option<usize>)
        requires
            self@.wf(),
        ensures
            inode == resolve(self@.links, name@),
    {
        match self.find(name) {
            Some(at) => Some(self.entries[at].inode),
            None => None,
        }
    }

    /// Number of bytes in file `inode`.
    pub fn size(&self, inode: usize) -> (n: usize)
        requires
            inode < self@.files.len(),
        ensures
            n == self@.files[inode as int].len(),
    {
        self.files[inode].len()
    }

    /// The contents of file `inode`.
    pub fn contents(&self, inode: usize) -> (data: &[u8])
        requires
            inode < self@.files.len(),
        ensures
            data@ == self@.files[inode as int],
    {
        self.files[inode].as_slice()
    }

    /// Number of names that lead to file `inode`.
    pub fn count_links(&self, inode: usize) -> (n: usize)
        ensures
            n == link_count(self@.links, inode),
    {
        let mut n: usize = 0;
        let mut i: usize = 0;
        proof {
            assert(self@.links.take(0) =~= Seq::<Link>::empty());
        }
        while i < self.entries.len()
            invariant
                i <= self.entries@.len(),
                self@.links.len() == self.entries@.len(),
                n <= i,
                n == link_count(self@.links.take(i as int), inode),
            decreases self.entries.len() - i,
        {
            proof {
                assert(self@.links.take(i + 1).drop_last() =~= self@.links.take(i as int));
                assert(self@.links.take(i + 1).last() == self@.links[i as int]);
            }
            if self.entries[i].inode == inode {
                n = n + 1;
            }
            i = i + 1;
        }
        proof {
            assert(self@.links.take(i as int) =~= self@.links);
        }
        n
    }

    /// The metadata of file `inode`. A link count beyond what the record
    /// can hold is reported as the largest count it can hold.
    pub fn stat(&self, inode: usize) -> (st: Stat)
        ensures
            st == stat_of(self@, inode),
    {
        let n = self.count_links(inode);
        Stat {
            dev: 0,
            ino: inode as u64,
            mode: StatMode::File,
            nlink: if n > u32::MAX as usize {
                u32::MAX
            } else {
                n as u32
            },
        }
    }

    /// Opens `name` with `flags` and returns the inode of the file, or
    /// `None` where the name is not in use and creation is not asked for.
    pub fn open_file(&mut self, name: &[u8], flags: OpenFlags) -> (inode: Option<usize>)
        requires
            old(self)@.wf(),
        ensures
            final(self)@.wf(),
            inode == old(self)@.opened(name@, flags),
            final(self)@ == old(self)@.after_open(name@, flags),
            inode matches Some(i) ==> i < final(self)@.files.len(),
            final(self)@.files.len() >= old(self)@.files.len(),
    {
        match self.find(name) {
            Some(at) => {
                let inode = self.entries[at].inode;
                assert(self@.links[at as int].inode == inode);
                if flags.create || flags.truncate {
                    self.files.set(inode, Vec::new());
                    proof {
                        assert(self@.links =~= old(self)@.links);
                        assert(self@.files =~= old(self)@.files.update(inode as int, Seq::empty()));
                    }
                }
                Some(inode)
            },
            None => {
                if flags.create {
                    let inode = self.files.len();
                    let owned = copy_bytes(name);
                    self.files.push(Vec::new());
                    self.entries.push(DirEntry { name: owned, inode });
                    proof {
                        let pre = old(self)@;
                        assert(self@.links =~= pre.links.push(Link { name: name@, inode }));
                        assert(self@.files =~= pre.files.push(Seq::empty()));
                        assert forall|i: int, j: int| 0 <= i < j < self@.links.len() implies (
                        #[trigger] self@.links[i]).name != (#[trigger] self@.links[j]).name by {
                            if j == pre.links.len() {
                                assert(pre.links[i].name != name@);
                            } else {
                                assert(pre.links[i].name != pre.links[j].name);
                            }
                        }
                    }
                    Some(inode)
                } else {
                    None
                }
            },
        }
    }

    /// Makes `new` a second name for the file that `old` leads to. Fails
    /// where `old` is not in use or `new` already is.
    pub fn link(&mut self, old_name: &[u8], new_name: &[u8]) -> (out: Result<(), Fault>)
        requires
            old(self)@.wf(),
        ensures
            final(self)@.wf(),
            out is Ok <==> named(old(self)@.links, old_name@) && !named(old(self)@.links, new_name@),
            out is Ok ==> final(self)@ == old(self)@.after_link(old_name@, new_name@),
            out matches Err(fault) ==> fault == Fault::NamespaceError && *final(self) == *old(self),
    {
        let at = match self.find(old_name) {
            Some(at) => at,
            None => {
                return Err(Fault::NamespaceError);
            },
        };
        if self.find(new_name).is_some() {
            return Err(Fault::NamespaceError);
        }
        let inode = self.entries[at].inode;
        let owned = copy_bytes(new_name);
        self.entries.push(DirEntry { name: owned, inode });
        proof {
            let pre = old(self)@;
            assert(pre.links[at as int].inode == inode);
            assert(self@.links =~= pre.links.push(Link { name: new_name@, inode }));
            assert(self@.files =~= pre.files);
            assert forall|i: int, j: int| 0 <= i < j < self@.links.len() implies (#[trigger] self@.links[i]).name
                != (#[trigger] self@.links[j]).name by {
                if j == pre.links.len() {
                    assert(pre.links[i].name != new_name@);
                } else {
                    assert(pre.links[i].name != pre.links[j].name);
                }
            }
        }
        Ok(())
    }

    /// Removes `name` from the namespace; the file behind it is emptied
    /// when no other name leads to it. Fails where `name` is not in use.
    pub fn unlink(&mut self, name: &[u8]) -> (out: Result<(), Fault>)
        requires
            old(self)@.wf(),
        ensures
            final(self)@.wf(),
            out is Ok <==> named(old(self)@.links, name@),
            out is Ok ==> final(self)@ == old(self)@.after_unlink(name@),
            out matches Err(fault) ==> fault == Fault::NamespaceError && *final(self) == *old(self),
            final(self)@.files.len() == old(self)@.files.len(),
    {
        let at = match self.find(name) {
            Some(at) => at,
            None => {
                return Err(Fault::NamespaceError);
            },
        };
        let inode = self.entries[at].inode;
        let gone = self.entries.remove(at);
        proof {
            let pre = old(self)@;
            assert(pre.links[at as int].inode == inode);
            assert(self@.links =~= pre.links.remove(at as int));
            assert(self@.files =~= pre.files);
            assert forall|i: int, j: int| 0 <= i < j < self@.links.len() implies (#[trigger] self@.links[i]).name
                != (#[trigger] self@.links[j]).name by {
                let a = if i < at { i } else { i + 1 };
                let b = if j < at { j } else { j + 1 };
                assert(pre.links[a].name != pre.links[b].name);
            }
            assert forall|i: int| 0 <= i < self@.links.len() implies (#[trigger] self@.links[i]).inode
                < self@.files.len() by {
                let a = if i < at { i } else { i + 1 };
                assert(pre.links[a].inode < pre.files.len());
            }
        }
        if self.count_links(inode) == 0 {
            let ghost mid = self@;
            self.files.set(inode, Vec::new());
            proof {
                assert(self@.links =~= mid.links);
                assert(self@.files =~= mid.files.update(inode as int, Seq::empty()));
            }
        }
        Ok(())
    }

    /// Writes `bytes` into file `inode` at `offset`.
    pub fn write_at(&mut self, inode: usize, offset: usize, bytes: &[u8])
        requires
            inode < old(self)@.files.len(),
            offset + bytes@.len() <= usize::MAX,
        ensures
            final(self)@.links == old(self)@.links,
            final(self)@.files == old(self)@.files.update(
                inode as int,
                overwritten(old(self)@.files[inode as int], offset as int, bytes@),
            ),
    {
        if bytes.len() == 0 {
            proof {
                assert(self@.files =~= self@.files.update(inode as int, self@.files[inode as int]));
            }
            return ;
        }
        let ghost before = self.files@[inode as int]@;
        let ghost pre = self@;
        let mut data: Vec<u8> = Vec::new();
        std::mem::swap(&mut data, &mut self.files[inode]);
        let end: usize = offset + bytes.len();
        while data.len() < offset
            invariant
                data@.len() >= before.len(),
                data@.len() == before.len() || data@.len() <= offset,
                forall|k: int| 0 <= k < before.len() ==> data@[k] == before[k],
                forall|k: int| before.len() <= k < data@.len() ==> data@[k] == 0,
            decreases offset - data@.len(),
        {
            data.push(0u8);
        }
        let ghost padded = data@;
        let mut i: usize = 0;
        while i < bytes.len()
            invariant
                i <= bytes@.len(),
                end == offset + bytes@.len(),
                bytes@.len() > 0,
                offset <= padded.len(),
                padded.len() == (if before.len() >= offset {
                    before.len()
                } else {
                    offset as nat
                }),
                forall|k: int| 0 <= k < before.len() ==> padded[k] == before[k],
                forall|k: int| before.len() <= k < padded.len() ==> padded[k] == 0,
                data@.len() == (if padded.len() >= offset + i {
                    padded.len()
                } else {
                    (offset + i) as nat
                }),
                forall|k: int|
                    0 <= k < data@.len() ==> data@[k] == if offset <= k < offset + i {
                        bytes@[k - offset]
                    } else {
                        padded[k]
                    },
            decreases bytes.len() - i,
        {
            if offset + i < data.len() {
                data.set(offset + i, bytes[i]);
            } else {
                data.push(bytes[i]);
            }
            i = i + 1;
        }
        proof {
            assert(data@ =~= overwritten(before, offset as int, bytes@));
        }
        self.files.set(inode, data);
        proof {
            assert(self@.links =~= pre.links);
            assert(self@.files =~= pre.files.update(
                inode as int,
                overwritten(pre.files[inode as int], offset as int, bytes@),
            ));
        }
    }
}

/// The metadata of file `inode`: an ordinary file on device zero, with as
/// many links as names lead to it.
pub open spec fn stat_of(fs: FsView, inode: usize) -> Stat {
    Stat {
        dev: 0,
        ino: inode as u64,
        mode: StatMode::File,
        nlink: if link_count(fs.links, inode) > u32::MAX {
            u32::MAX
        } else {
            link_count(fs.links, inode) as u32
        },
    }
}

/// A copy of the bytes.
pub fn copy_bytes(bytes: &[u8]) -> (copy: Vec<u8>)
    ensures
        copy@ == bytes@,
{
    let mut copy: Vec<u8> = Vec::new();
    let mut i: usize = 0;
    while i < bytes.len()
        invariant
            i <= bytes@.len(),
            copy@ == bytes@.take(i as int),
        decreases bytes.len() - i,
    {
        copy.push(bytes[i]);
        proof {
            assert(bytes@.take(i as int).push(bytes@[i as int]) =~= bytes@.take(i + 1));
        }
        i = i + 1;
    }
    proof {
        assert(bytes@.take(i as int) =~= bytes@);
    }
    copy
}

} // verus!
