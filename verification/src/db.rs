use vstd::prelude::*;

use crate::error::StorageError;
use crate::log::{
    decides, frame_bytes, mapped_from, matching_prefix, parse_frames, prefix_upto, views_of,
    well_framed, RecordLog,
};
use vstd::string::StringExecFns;

verus! {

/// Mathematical model of a [`FileBasedDB`]: the folder it writes under and
/// the byte image of each per-entity log file.
pub ghost struct DbView {
    pub base_path: Seq<char>,
    pub users: Seq<u8>,
    pub posts: Seq<u8>,
    pub totems: Seq<u8>,
}

/// A database of domain records stored in append-only, length-prefixed
/// files: one log per entity type, named deterministically under one base
/// folder.  Payloads are opaque byte strings; an external codec turns
/// domain entities into payloads and back.
///
/// This is the in-memory model of the three files; an unverified shell
/// creates the folder, reads each file in, and appends the same frame
/// bytes to the file that the write operations append here.
pub struct FileBasedDB {
    base_path: String,
    users: RecordLog,
    posts: RecordLog,
    totems: RecordLog,
}

impl View for FileBasedDB {
    type V = DbView;

    closed spec fn view(&self) -> DbView {
        DbView {
            base_path: self.base_path@,
            users: self.users@,
            posts: self.posts@,
            totems: self.totems@,
        }
    }
}

impl FileBasedDB {
    /// Every log consists of complete frames.  `init` establishes this and
    /// every write preserves it; a `FileBasedDB` value never holds a
    /// truncated tail.
    pub open spec fn wf(self) -> bool {
        &&& well_framed(self@.users)
        &&& well_framed(self@.posts)
        &&& well_framed(self@.totems)
    }

    /// The user payloads on record, in insertion order.
    pub open spec fn user_records(self) -> Seq<Seq<u8>> {
        parse_frames(self@.users)
    }

    /// The post payloads on record, in insertion order.
    pub open spec fn post_records(self) -> Seq<Seq<u8>> {
        parse_frames(self@.posts)
    }

    /// The totem payloads on record, in insertion order.
    pub open spec fn totem_records(self) -> Seq<Seq<u8>> {
        parse_frames(self@.totems)
    }

    /// A fresh database rooted at `folder_path`, with all three logs
    /// empty.
    pub fn init(folder_path: &str) -> (r: FileBasedDB)
        ensures
            r.wf(),
            r@.base_path == folder_path@,
            r@.users == Seq::<u8>::empty(),
            r@.posts == Seq::<u8>::empty(),
            r@.totems == Seq::<u8>::empty(),
            r.user_records() == Seq::<Seq<u8>>::empty(),
            r.post_records() == Seq::<Seq<u8>>::empty(),
            r.totem_records() == Seq::<Seq<u8>>::empty(),
    {
        FileBasedDB {
            base_path: folder_path.to_owned(),
            users: RecordLog::new(),
            posts: RecordLog::new(),
            totems: RecordLog::new(),
        }
    }

    /// The file path for a specific log file: the base folder, a path
    /// separator, and the file's name.
    pub fn get_file_path(&self, filename: &str) -> (r: String)
        ensures
            r@ == self@.base_path + "/"@ + filename@,
    {
        let mut path = self.base_path.clone();
        path.append("/");
        path.append(filename);
        path
    }

    /// Appends a single user record.
    pub fn write_user(&mut self, payload: &Vec<u8>)
        requires
            old(self).wf(),
            payload@.len() <= u32::MAX,
        ensures
            final(self).wf(),
            final(self)@.users == old(self)@.users + frame_bytes(payload@),
            final(self).user_records() == old(self).user_records().push(payload@),
            final(self)@.posts == old(self)@.posts,
            final(self)@.totems == old(self)@.totems,
            final(self)@.base_path == old(self)@.base_path,
    {
        self.users.append(payload);
    }

    /// Appends a batch of user records as consecutive frames, in order.
    pub fn write_users(&mut self, payloads: &Vec<Vec<u8>>)
        requires
            old(self).wf(),
            forall|i: int| 0 <= i < payloads@.len() ==> #[trigger] payloads@[i]@.len() <= u32::MAX,
        ensures
            final(self).wf(),
            final(self).user_records() == old(self).user_records() + views_of(payloads@),
            final(self)@.posts == old(self)@.posts,
            final(self)@.totems == old(self)@.totems,
            final(self)@.base_path == old(self)@.base_path,
    {
        self.users.append_batch(payloads);
    }

    /// Appends a single post record.
    pub fn write_post(&mut self, payload: &Vec<u8>)
        requires
            old(self).wf(),
            payload@.len() <= u32::MAX,
        ensures
            final(self).wf(),
            final(self)@.posts == old(self)@.posts + frame_bytes(payload@),
            final(self).post_records() == old(self).post_records().push(payload@),
            final(self)@.users == old(self)@.users,
            final(self)@.totems == old(self)@.totems,
            final(self)@.base_path == old(self)@.base_path,
    {
        self.posts.append(payload);
    }

    /// Appends a batch of post records as consecutive frames, in order.
    pub fn write_posts(&mut self, payloads: &Vec<Vec<u8>>)
        requires
            old(self).wf(),
            forall|i: int| 0 <= i < payloads@.len() ==> #[trigger] payloads@[i]@.len() <= u32::MAX,
        ensures
            final(self).wf(),
            final(self).post_records() == old(self).post_records() + views_of(payloads@),
            final(self)@.users == old(self)@.users,
            final(self)@.totems == old(self)@.totems,
            final(self)@.base_path == old(self)@.base_path,
    {
        self.posts.append_batch(payloads);
    }

    /// Appends a single totem record.
    pub fn write_totem(&mut self, payload: &Vec<u8>)
        requires
            old(self).wf(),
            payload@.len() <= u32::MAX,
        ensures
            final(self).wf(),
            final(self)@.totems == old(self)@.totems + frame_bytes(payload@),
            final(self).totem_records() == old(self).totem_records().push(payload@),
            final(self)@.users == old(self)@.users,
            final(self)@.posts == old(self)@.posts,
            final(self)@.base_path == old(self)@.base_path,
    {
        self.totems.append(payload);
    }

    /// Appends a batch of totem records as consecutive frames, in order.
    pub fn write_totems(&mut self, payloads: &Vec<Vec<u8>>)
        requires
            old(self).wf(),
            forall|i: int| 0 <= i < payloads@.len() ==> #[trigger] payloads@[i]@.len() <= u32::MAX,
        ensures
            final(self).wf(),
            final(self).totem_records() == old(self).totem_records() + views_of(payloads@),
            final(self)@.users == old(self)@.users,
            final(self)@.posts == old(self)@.posts,
            final(self)@.base_path == old(self)@.base_path,
    {
        self.totems.append_batch(payloads);
    }

    /// Reads the first `limit` user records, in insertion order.
    pub fn read_users(&self, limit: usize) -> (r: Vec<Vec<u8>>)
        ensures
            views_of(r@) == prefix_upto(self.user_records(), limit as nat),
    {
        self.users.scan_all(limit)
    }

    /// Reads the first `limit` user records that match the predicate.
    pub fn read_users_match<F: Fn(&Vec<u8>) -> Result<bool, StorageError>>(
        &self,
        limit: usize,
        matcher: F,
    ) -> (r: Result<Vec<Vec<u8>>, StorageError>)
        requires
            forall|b: Vec<u8>| #[trigger] call_requires(matcher, (&b,)),
        ensures
            match r {
                Result::Ok(v) => v@.len() <= limit,
                Result::Err(e) => exists|pay: Vec<u8>|
                    #[trigger] call_ensures(matcher, (&pay,), Result::<bool, StorageError>::Err(e))
                        && self.user_records().contains(pay@),
            },
            forall|p: spec_fn(Seq<u8>) -> bool|
                #![trigger matching_prefix(self.user_records(), p, limit as nat)]
                decides(matcher, p) ==> match r {
                    Result::Ok(v) => views_of(v@) == matching_prefix(
                        self.user_records(),
                        p,
                        limit as nat,
                    ),
                    Result::Err(e) => false,
                },
    {
        proof {
            assert(self.user_records() == self.users.records());
        }
        self.users.scan_match(limit, matcher)
    }

    /// Streams the user records through `filter`, mapping exactly the
    /// matching ones with `map`, until `limit` results exist or the log is
    /// exhausted.  `map` never sees an excluded record.
    pub fn read_users_filter_map<
        R,
        F: Fn(&Vec<u8>) -> Result<bool, StorageError>,
        M: Fn(Vec<u8>) -> R,
    >(&self, limit: usize, filter: F, map: M) -> (r: Result<Vec<R>, StorageError>)
        requires
            forall|b: Vec<u8>| #[trigger] call_requires(filter, (&b,)),
            forall|b: Vec<u8>| #[trigger] call_requires(map, (b,)),
        ensures
            match r {
                Result::Ok(v) => v@.len() <= limit,
                Result::Err(e) => exists|pay: Vec<u8>|
                    #[trigger] call_ensures(filter, (&pay,), Result::<bool, StorageError>::Err(e))
                        && self.user_records().contains(pay@),
            },
            forall|p: spec_fn(Seq<u8>) -> bool|
                #![trigger matching_prefix(self.user_records(), p, limit as nat)]
                decides(filter, p) ==> match r {
                    Result::Ok(v) => mapped_from(
                        map,
                        matching_prefix(self.user_records(), p, limit as nat),
                        v@,
                    ),
                    Result::Err(e) => false,
                },
    {
        proof {
            assert(self.user_records() == self.users.records());
        }
        self.users.scan(limit, filter, map)
    }

    /// Reads the first `limit` post records, in insertion order.
    pub fn read_posts(&self, limit: usize) -> (r: Vec<Vec<u8>>)
        ensures
            views_of(r@) == prefix_upto(self.post_records(), limit as nat),
    {
        self.posts.scan_all(limit)
    }

    /// Reads the first `limit` post records that match the predicate.
    pub fn read_posts_match<F: Fn(&Vec<u8>) -> Result<bool, StorageError>>(
        &self,
        limit: usize,
        matcher: F,
    ) -> (r: Result<Vec<Vec<u8>>, StorageError>)
        requires
            forall|b: Vec<u8>| #[trigger] call_requires(matcher, (&b,)),
        ensures
            match r {
                Result::Ok(v) => v@.len() <= limit,
                Result::Err(e) => exists|pay: Vec<u8>|
                    #[trigger] call_ensures(matcher, (&pay,), Result::<bool, StorageError>::Err(e))
                        && self.post_records().contains(pay@),
            },
            forall|p: spec_fn(Seq<u8>) -> bool|
                #![trigger matching_prefix(self.post_records(), p, limit as nat)]
                decides(matcher, p) ==> match r {
                    Result::Ok(v) => views_of(v@) == matching_prefix(
                        self.post_records(),
                        p,
                        limit as nat,
                    ),
                    Result::Err(e) => false,
                },
    {
        proof {
            assert(self.post_records() == self.posts.records());
        }
        self.posts.scan_match(limit, matcher)
    }

    /// Streams the post records through `filter`, mapping exactly the
    /// matching ones with `map`, until `limit` results exist or the log is
    /// exhausted.  `map` never sees an excluded record.
    pub fn read_posts_filter_map<
        R,
        F: Fn(&Vec<u8>) -> Result<bool, StorageError>,
        M: Fn(Vec<u8>) -> R,
    >(&self, limit: usize, filter: F, map: M) -> (r: Result<Vec<R>, StorageError>)
        requires
            forall|b: Vec<u8>| #[trigger] call_requires(filter, (&b,)),
            forall|b: Vec<u8>| #[trigger] call_requires(map, (b,)),
        ensures
            match r {
                Result::Ok(v) => v@.len() <= limit,
                Result::Err(e) => exists|pay: Vec<u8>|
                    #[trigger] call_ensures(filter, (&pay,), Result::<bool, StorageError>::Err(e))
                        && self.post_records().contains(pay@),
            },
            forall|p: spec_fn(Seq<u8>) -> bool|
                #![trigger matching_prefix(self.post_records(), p, limit as nat)]
                decides(filter, p) ==> match r {
                    Result::Ok(v) => mapped_from(
                        map,
                        matching_prefix(self.post_records(), p, limit as nat),
                        v@,
                    ),
                    Result::Err(e) => false,
                },
    {
        proof {
            assert(self.post_records() == self.posts.records());
        }
        self.posts.scan(limit, filter, map)
    }

    /// Reads the first `limit` totem records, in insertion order.
    pub fn read_totems(&self, limit: usize) -> (r: Vec<Vec<u8>>)
        ensures
            views_of(r@) == prefix_upto(self.totem_records(), limit as nat),
    {
        self.totems.scan_all(limit)
    }

    /// Reads the first `limit` totem records that match the predicate.
    pub fn read_totems_match<F: Fn(&Vec<u8>) -> Result<bool, StorageError>>(
        &self,
        limit: usize,
        matcher: F,
    ) -> (r: Result<Vec<Vec<u8>>, StorageError>)
        requires
            forall|b: Vec<u8>| #[trigger] call_requires(matcher, (&b,)),
        ensures
            match r {
                Result::Ok(v) => v@.len() <= limit,
                Result::Err(e) => exists|pay: Vec<u8>|
                    #[trigger] call_ensures(matcher, (&pay,), Result::<bool, StorageError>::Err(e))
                        && self.totem_records().contains(pay@),
            },
            forall|p: spec_fn(Seq<u8>) -> bool|
                #![trigger matching_prefix(self.totem_records(), p, limit as nat)]
                decides(matcher, p) ==> match r {
                    Result::Ok(v) => views_of(v@) == matching_prefix(
                        self.totem_records(),
                        p,
                        limit as nat,
                    ),
                    Result::Err(e) => false,
                },
    {
        proof {
            assert(self.totem_records() == self.totems.records());
        }
        self.totems.scan_match(limit, matcher)
    }

    /// Streams the totem records through `filter`, mapping exactly the
    /// matching ones with `map`, until `limit` results exist or the log is
    /// exhausted.  `map` never sees an excluded record.
    pub fn read_totems_filter_map<
        R,
        F: Fn(&Vec<u8>) -> Result<bool, StorageError>,
        M: Fn(Vec<u8>) -> R,
    >(&self, limit: usize, filter: F, map: M) -> (r: Result<Vec<R>, StorageError>)
        requires
            forall|b: Vec<u8>| #[trigger] call_requires(filter, (&b,)),
            forall|b: Vec<u8>| #[trigger] call_requires(map, (b,)),
        ensures
            match r {
                Result::Ok(v) => v@.len() <= limit,
                Result::Err(e) => exists|pay: Vec<u8>|
                    #[trigger] call_ensures(filter, (&pay,), Result::<bool, StorageError>::Err(e))
                        && self.totem_records().contains(pay@),
            },
            forall|p: spec_fn(Seq<u8>) -> bool|
                #![trigger matching_prefix(self.totem_records(), p, limit as nat)]
                decides(filter, p) ==> match r {
                    Result::Ok(v) => mapped_from(
                        map,
                        matching_prefix(self.totem_records(), p, limit as nat),
                        v@,
                    ),
                    Result::Err(e) => false,
                },
    {
        proof {
            assert(self.totem_records() == self.totems.records());
        }
        self.totems.scan(limit, filter, map)
    }
}

} // verus!
