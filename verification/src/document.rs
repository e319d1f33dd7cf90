//! The flat document form: the ordered section list with source metadata,
//! as the ingestors hand it to callers.

use vstd::prelude::*;

use crate::{secs_view, DocumentSection, SecV};

verus! {

/// Metadata about the parsed source.
#[derive(Debug)]
pub struct DocumentMetadata {
    pub total_pages: u32,
    pub file_path: String,
    pub file_size: u64,
    pub creation_date: Option<String>,
    pub modification_date: Option<String>,
}

/// The flat parse result: sections in document order plus metadata.
#[derive(Debug)]
pub struct DocumentTree {
    pub sections: Vec<DocumentSection>,
    pub metadata: DocumentMetadata,
}

/// Index of the first section carrying `id`.
pub open spec fn sec_index(secs: Seq<SecV>, id: int) -> Option<int>
    decreases secs.len(),
{
    if secs.len() == 0 {
        None
    } else if secs[0].id == id {
        Some(0)
    } else {
        match sec_index(secs.drop_first(), id) {
            Some(j) => Some(j + 1),
            None => None,
        }
    }
}

impl DocumentTree {
    /// An empty tree.
    pub fn new() -> (r: DocumentTree)
        ensures
            r.sections@.len() == 0,
            r.metadata.total_pages == 0,
            r.metadata.file_path@ == Seq::<char>::empty(),
            r.metadata.file_size == 0,
            r.metadata.creation_date is None,
            r.metadata.modification_date is None,
    {
        DocumentTree {
            sections: Vec::new(),
            metadata: DocumentMetadata {
                total_pages: 0,
                file_path: String::new(),
                file_size: 0,
                creation_date: None,
                modification_date: None,
            },
        }
    }

    /// The first section with the given id, if any.
    pub fn get_section_by_id(&self, id: i32) -> (r: Option<&DocumentSection>)
        ensures
            match r {
                Some(s) => sec_index(secs_view(self.sections@), id as int) matches Some(j)
                    && secs_view(self.sections@)[j] == s@,
                None => sec_index(secs_view(self.sections@), id as int) is None,
            },
    {
        let ghost sv = secs_view(self.sections@);
        let mut i: usize = 0;
        while i < self.sections.len()
            invariant
                0 <= i <= self.sections@.len(),
                sv == secs_view(self.sections@),
                sv.len() == self.sections@.len(),
                forall|j: int| 0 <= j < i ==> #[trigger] sv[j].id != id as int,
            decreases self.sections@.len() - i,
        {
            if self.sections[i].id == id {
                proof {
                    lemma_sec_index_first(sv, id as int, i as int);
                }
                return Some(&self.sections[i]);
            }
            i += 1;
        }
        proof {
            lemma_sec_index_none(sv, id as int);
        }
        None
    }

    /// Replace the text of the first section with the given id; a no-op
    /// when no section carries it.
    pub fn update_section(&mut self, id: i32, new_content: String)
        ensures
            match sec_index(secs_view(old(self).sections@), id as int) {
                Some(j) => secs_view(final(self).sections@) == secs_view(
                    old(self).sections@,
                ).update(j, SecV { raw_text: new_content@, ..secs_view(old(self).sections@)[j] })
                    && final(self).sections@.len() == old(self).sections@.len(),
                None => final(self).sections@ == old(self).sections@,
            },
            final(self).metadata == old(self).metadata,
    {
        let ghost sv = secs_view(old(self).sections@);
        let n = self.sections.len();
        let mut i: usize = 0;
        while i < n
            invariant
                0 <= i <= n,
                n == self.sections@.len(),
                self.sections@ == old(self).sections@,
                self.metadata == old(self).metadata,
                sv == secs_view(old(self).sections@),
                sv.len() == n,
                forall|j: int| 0 <= j < i ==> #[trigger] sv[j].id != id as int,
            decreases n - i,
        {
            if self.sections[i].id == id {
                proof {
                    lemma_sec_index_first(sv, id as int, i as int);
                }
                let s = sec_at_mut(&mut self.sections, i);
                s.raw_text = new_content;
                proof {
                    assert(secs_view(self.sections@) =~~= sv.update(
                        i as int,
                        SecV { raw_text: new_content@, ..sv[i as int] },
                    ));
                }
                return ;
            }
            i += 1;
        }
        proof {
            lemma_sec_index_none(sv, id as int);
        }
    }
}

fn sec_at_mut(v: &mut Vec<DocumentSection>, i: usize) -> (r: &mut DocumentSection)
    requires
        i < old(v)@.len(),
    ensures
        *r == old(v)@[i as int],
        final(v)@ == old(v)@.update(i as int, *final(r)),
{
    &mut v[i]
}

proof fn lemma_sec_index_first(secs: Seq<SecV>, id: int, i: int)
    requires
        0 <= i < secs.len(),
        secs[i].id == id,
        forall|j: int| 0 <= j < i ==> #[trigger] secs[j].id != id,
    ensures
        sec_index(secs, id) == Some(i),
    decreases i,
{
    if i == 0 {
    } else {
        assert(secs[0].id != id);
        assert(forall|j: int|
            0 <= j < i - 1 ==> secs.drop_first()[j] == secs[j + 1] && #[trigger] secs.drop_first()[
                j
            ].id != id);
        assert(secs.drop_first()[i - 1] == secs[i as int]);
        lemma_sec_index_first(secs.drop_first(), id, i - 1);
    }
}

proof fn lemma_sec_index_none(secs: Seq<SecV>, id: int)
    requires
        forall|j: int| 0 <= j < secs.len() ==> #[trigger] secs[j].id != id,
    ensures
        sec_index(secs, id) is None,
    decreases secs.len(),
{
    if secs.len() > 0 {
        assert(forall|j: int|
            0 <= j < secs.len() - 1 ==> secs.drop_first()[j] == secs[j + 1]
                && #[trigger] secs.drop_first()[j].id != id);
        lemma_sec_index_none(secs.drop_first(), id);
    }
}

} // verus!
