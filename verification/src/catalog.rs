//! The catalogue: the files of a store folded into a tree of patients,
//! studies and series.
//!
//! A node is created by the first file that names it and keeps what that
//! file said of it. Each file adds its path to the image list of its series.

use crate::keyed::{
    distinct, keyed, lemma_keyed_domain, lemma_keyed_len, lemma_keyed_push, lemma_keyed_update,
    lemma_keyed_value,
};
use crate::text::texts;
use vstd::prelude::*;

verus! {

/// What one file contributes to the catalogue.
#[derive(Clone, Debug)]
pub struct CatalogEntry {
    pub patient_id: String,
    pub patient_name: String,
    pub study_uid: String,
    pub study_description: String,
    pub study_date: String,
    pub series_uid: String,
    pub series_description: String,
    pub modality: String,
    pub relative_path: String,
}

/// The mathematical content of a [`CatalogEntry`].
pub struct EntryModel {
    pub patient_id: Seq<char>,
    pub patient_name: Seq<char>,
    pub study_uid: Seq<char>,
    pub study_description: Seq<char>,
    pub study_date: Seq<char>,
    pub series_uid: Seq<char>,
    pub series_description: Seq<char>,
    pub modality: Seq<char>,
    pub relative_path: Seq<char>,
}

impl View for CatalogEntry {
    type V = EntryModel;

    open spec fn view(&self) -> EntryModel {
        EntryModel {
            patient_id: self.patient_id@,
            patient_name: self.patient_name@,
            study_uid: self.study_uid@,
            study_description: self.study_description@,
            study_date: self.study_date@,
            series_uid: self.series_uid@,
            series_description: self.series_description@,
            modality: self.modality@,
            relative_path: self.relative_path@,
        }
    }
}

/// A series as a value: its description, its modality and the paths of its
/// images in the order in which they were found.
pub struct SeriesModel {
    pub description: Seq<char>,
    pub modality: Seq<char>,
    pub images: Seq<Seq<char>>,
}

/// A study as a value; its series by series UID.
pub struct StudyModel {
    pub description: Seq<char>,
    pub date: Seq<char>,
    pub series: Map<Seq<char>, SeriesModel>,
}

/// A patient as a value; its studies by study UID.
pub struct PatientModel {
    pub name: Seq<char>,
    pub studies: Map<Seq<char>, StudyModel>,
}

/// The entry of `m` under `k`, if there is one.
pub open spec fn lookup<V>(m: Map<Seq<char>, V>, k: Seq<char>) -> Option<V> {
    if m.contains_key(k) {
        Some(m[k])
    } else {
        None
    }
}

/// The series that a file belongs to, after the file was added: a series
/// that exists gains the path; a new one starts with what the file says.
pub open spec fn series_after(found: Option<SeriesModel>, e: EntryModel) -> SeriesModel {
    let base = match found {
        Some(series) => series,
        None => SeriesModel {
            description: e.series_description,
            modality: e.modality,
            images: Seq::empty(),
        },
    };
    SeriesModel { images: base.images.push(e.relative_path), ..base }
}

/// The study that a file belongs to, after the file was added.
pub open spec fn study_after(found: Option<StudyModel>, e: EntryModel) -> StudyModel {
    let base = match found {
        Some(study) => study,
        None => StudyModel {
            description: e.study_description,
            date: e.study_date,
            series: Map::empty(),
        },
    };
    StudyModel {
        series: base.series.insert(e.series_uid, series_after(lookup(base.series, e.series_uid), e)),
        ..base
    }
}

/// The patient that a file belongs to, after the file was added.
pub open spec fn patient_after(found: Option<PatientModel>, e: EntryModel) -> PatientModel {
    let base = match found {
        Some(patient) => patient,
        None => PatientModel { name: e.patient_name, studies: Map::empty() },
    };
    PatientModel {
        studies: base.studies.insert(e.study_uid, study_after(lookup(base.studies, e.study_uid), e)),
        ..base
    }
}

/// The catalogue after one more file.
pub open spec fn catalog_after(
    catalog: Map<Seq<char>, PatientModel>,
    e: EntryModel,
) -> Map<Seq<char>, PatientModel> {
    catalog.insert(e.patient_id, patient_after(lookup(catalog, e.patient_id), e))
}

/// The catalogue of a sequence of files, added one after the other.
pub open spec fn catalog_of(entries: Seq<CatalogEntry>) -> Map<Seq<char>, PatientModel>
    decreases entries.len(),
{
    if entries.len() == 0 {
        Map::empty()
    } else {
        catalog_after(catalog_of(entries.drop_last()), entries.last()@)
    }
}

/// The catalogue of a scan, in which a file that could not be read as DICOM
/// stands as `None`.
pub open spec fn catalog_of_scan(scan: Seq<Option<CatalogEntry>>) -> Map<Seq<char>, PatientModel>
    decreases scan.len(),
{
    if scan.len() == 0 {
        Map::empty()
    } else {
        match scan.last() {
            Some(entry) => catalog_after(catalog_of_scan(scan.drop_last()), entry@),
            None => catalog_of_scan(scan.drop_last()),
        }
    }
}

/// A series of a study.
#[derive(Clone, Debug)]
pub struct SeriesNode {
    pub series_uid: String,
    pub series_description: String,
    pub modality: String,
    pub images: Vec<String>,
}

/// A study of a patient. No two of its series have the same UID.
#[derive(Clone, Debug)]
pub struct StudyNode {
    pub study_uid: String,
    pub study_description: String,
    pub study_date: String,
    pub series: Vec<SeriesNode>,
}

/// A patient. No two of its studies have the same UID.
#[derive(Clone, Debug)]
pub struct PatientNode {
    pub patient_id: String,
    pub patient_name: String,
    pub studies: Vec<StudyNode>,
}

/// The catalogue. No two of its patients have the same id.
#[derive(Clone, Debug)]
pub struct Catalog {
    pub patients: Vec<PatientNode>,
}

pub open spec fn series_key() -> spec_fn(SeriesNode) -> Seq<char> {
    |n: SeriesNode| n.series_uid@
}

pub open spec fn series_model() -> spec_fn(SeriesNode) -> SeriesModel {
    |n: SeriesNode| n@
}

pub open spec fn study_key() -> spec_fn(StudyNode) -> Seq<char> {
    |n: StudyNode| n.study_uid@
}

pub open spec fn study_model() -> spec_fn(StudyNode) -> StudyModel {
    |n: StudyNode| n@
}

pub open spec fn patient_key() -> spec_fn(PatientNode) -> Seq<char> {
    |n: PatientNode| n.patient_id@
}

pub open spec fn patient_model() -> spec_fn(PatientNode) -> PatientModel {
    |n: PatientNode| n@
}

impl View for SeriesNode {
    type V = SeriesModel;

    open spec fn view(&self) -> SeriesModel {
        SeriesModel {
            description: self.series_description@,
            modality: self.modality@,
            images: texts(self.images@),
        }
    }
}

impl View for StudyNode {
    type V = StudyModel;

    open spec fn view(&self) -> StudyModel {
        StudyModel {
            description: self.study_description@,
            date: self.study_date@,
            series: keyed(self.series@, series_key(), series_model()),
        }
    }
}

impl View for PatientNode {
    type V = PatientModel;

    open spec fn view(&self) -> PatientModel {
        PatientModel {
            name: self.patient_name@,
            studies: keyed(self.studies@, study_key(), study_model()),
        }
    }
}

impl View for Catalog {
    type V = Map<Seq<char>, PatientModel>;

    open spec fn view(&self) -> Map<Seq<char>, PatientModel> {
        keyed(self.patients@, patient_key(), patient_model())
    }
}

/// The position of the series with the given UID.
fn find_series(series: &Vec<SeriesNode>, uid: &String) -> (found: Option<usize>)
    ensures
        match found {
            Some(i) => i < series.len() && series@[i as int].series_uid@ == uid@,
            None => forall|i: int| 0 <= i < series.len() ==> series@[i].series_uid@ != uid@,
        },
{
    let mut i: usize = 0;
    while i < series.len()
        invariant
            i <= series.len(),
            forall|k: int| 0 <= k < i ==> series@[k].series_uid@ != uid@,
        decreases series.len() - i,
    {
        if series[i].series_uid == *uid {
            return Some(i);
        }
        i = i + 1;
    }
    None
}

/// The position of the study with the given UID.
fn find_study(studies: &Vec<StudyNode>, uid: &String) -> (found: Option<usize>)
    ensures
        match found {
            Some(i) => i < studies.len() && studies@[i as int].study_uid@ == uid@,
            None => forall|i: int| 0 <= i < studies.len() ==> studies@[i].study_uid@ != uid@,
        },
{
    let mut i: usize = 0;
    while i < studies.len()
        invariant
            i <= studies.len(),
            forall|k: int| 0 <= k < i ==> studies@[k].study_uid@ != uid@,
        decreases studies.len() - i,
    {
        if studies[i].study_uid == *uid {
            return Some(i);
        }
        i = i + 1;
    }
    None
}

/// The position of the patient with the given id.
fn find_patient(patients: &Vec<PatientNode>, id: &String) -> (found: Option<usize>)
    ensures
        match found {
            Some(i) => i < patients.len() && patients@[i as int].patient_id@ == id@,
            None => forall|i: int| 0 <= i < patients.len() ==> patients@[i].patient_id@ != id@,
        },
{
    let mut i: usize = 0;
    while i < patients.len()
        invariant
            i <= patients.len(),
            forall|k: int| 0 <= k < i ==> patients@[k].patient_id@ != id@,
        decreases patients.len() - i,
    {
        if patients[i].patient_id == *id {
            return Some(i);
        }
        i = i + 1;
    }
    None
}

impl SeriesNode {
    /// The number of images of the series: the length of its image list.
    pub fn image_count(&self) -> (count: usize)
        ensures
            count == self@.images.len(),
    {
        self.images.len()
    }

    /// Adds the file's path to the image list.
    fn add(&mut self, entry: &CatalogEntry)
        ensures
            final(self).series_uid == old(self).series_uid,
            final(self)@ == series_after(Some(old(self)@), entry@),
    {
        self.images.push(entry.relative_path.clone());
        assert(texts(self.images@) =~= texts(old(self).images@).push(entry.relative_path@));
    }
}

impl StudyNode {
    /// No two series of the study have the same UID.
    pub open spec fn wf(&self) -> bool {
        distinct(self.series@, series_key())
    }

    /// The series with the given UID, if the study has it.
    pub fn series_with(&self, uid: &str) -> (found: Option<&SeriesNode>)
        requires
            self.wf(),
        ensures
            found is Some <==> self@.series.contains_key(uid@),
            found matches Some(node) ==> node@ == self@.series[uid@] && node.series_uid@ == uid@,
    {
        proof {
            lemma_keyed_domain(self.series@, series_key(), series_model(), uid@);
        }
        match find_series(&self.series, &uid.to_owned()) {
            Some(at) => {
                proof {
                    lemma_keyed_value(self.series@, series_key(), series_model(), at as int);
                }
                Some(&self.series[at])
            },
            None => None,
        }
    }

    /// Adds the file to its series, which is created if the study has none
    /// with that UID.
    fn add(&mut self, entry: &CatalogEntry)
        requires
            old(self).wf(),
        ensures
            final(self).wf(),
            final(self).study_uid == old(self).study_uid,
            final(self)@ == study_after(Some(old(self)@), entry@),
    {
        let ghost before = self.series@;
        let at = match find_series(&self.series, &entry.series_uid) {
            Some(at) => {
                proof {
                    lemma_keyed_value(before, series_key(), series_model(), at as int);
                }
                at
            },
            None => {
                let fresh = SeriesNode {
                    series_uid: entry.series_uid.clone(),
                    series_description: entry.series_description.clone(),
                    modality: entry.modality.clone(),
                    images: Vec::new(),
                };
                proof {
                    assert(texts(fresh.images@) =~= Seq::<Seq<char>>::empty());
                    lemma_keyed_push(before, series_key(), series_model(), fresh);
                }
                self.series.push(fresh);
                self.series.len() - 1
            },
        };
        let ghost between = self.series@;
        self.series[at].add(entry);
        proof {
            lemma_keyed_update(
                between,
                series_key(),
                series_model(),
                at as int,
                self.series@[at as int],
            );
            assert(self@.series =~= study_after(Some(old(self)@), entry@).series);
        }
    }
}

impl PatientNode {
    /// No two studies of the patient have the same UID, and each is itself
    /// well formed.
    pub open spec fn wf(&self) -> bool {
        &&& distinct(self.studies@, study_key())
        &&& forall|i: int| 0 <= i < self.studies@.len() ==> (#[trigger] self.studies@[i]).wf()
    }

    /// The study with the given UID, if the patient has it.
    pub fn study(&self, uid: &str) -> (found: Option<&StudyNode>)
        requires
            self.wf(),
        ensures
            found is Some <==> self@.studies.contains_key(uid@),
            found matches Some(node) ==> node@ == self@.studies[uid@] && node.study_uid@ == uid@
                && node.wf(),
    {
        proof {
            lemma_keyed_domain(self.studies@, study_key(), study_model(), uid@);
        }
        match find_study(&self.studies, &uid.to_owned()) {
            Some(at) => {
                proof {
                    lemma_keyed_value(self.studies@, study_key(), study_model(), at as int);
                }
                Some(&self.studies[at])
            },
            None => None,
        }
    }

    /// Adds the file to its study, which is created if the patient has none
    /// with that UID.
    fn add(&mut self, entry: &CatalogEntry)
        requires
            old(self).wf(),
        ensures
            final(self).wf(),
            final(self).patient_id == old(self).patient_id,
            final(self)@ == patient_after(Some(old(self)@), entry@),
    {
        let ghost before = self.studies@;
        let at = match find_study(&self.studies, &entry.study_uid) {
            Some(at) => {
                proof {
                    lemma_keyed_value(before, study_key(), study_model(), at as int);
                }
                at
            },
            None => {
                let fresh = StudyNode {
                    study_uid: entry.study_uid.clone(),
                    study_description: entry.study_description.clone(),
                    study_date: entry.study_date.clone(),
                    series: Vec::new(),
                };
                proof {
                    lemma_keyed_push(before, study_key(), study_model(), fresh);
                }
                self.studies.push(fresh);
                self.studies.len() - 1
            },
        };
        let ghost between = self.studies@;
        self.studies[at].add(entry);
        proof {
            lemma_keyed_update(
                between,
                study_key(),
                study_model(),
                at as int,
                self.studies@[at as int],
            );
            assert(self@.studies =~= patient_after(Some(old(self)@), entry@).studies);
        }
    }
}

impl Catalog {
    /// No two patients of the catalogue have the same id, and each is
    /// itself well formed.
    pub open spec fn wf(&self) -> bool {
        &&& distinct(self.patients@, patient_key())
        &&& forall|i: int| 0 <= i < self.patients@.len() ==> (#[trigger] self.patients@[i]).wf()
    }

    /// The number of patients.
    pub fn patient_count(&self) -> (count: usize)
        requires
            self.wf(),
        ensures
            self@.dom().finite(),
            count == self@.dom().len(),
    {
        proof {
            lemma_keyed_len(self.patients@, patient_key(), patient_model());
        }
        self.patients.len()
    }

    /// The empty catalogue.
    pub fn new() -> (catalog: Catalog)
        ensures
            catalog.wf(),
            catalog@ == Map::<Seq<char>, PatientModel>::empty(),
    {
        Catalog { patients: Vec::new() }
    }

    /// The patient with the given id, if the catalogue has it.
    pub fn patient(&self, id: &str) -> (found: Option<&PatientNode>)
        requires
            self.wf(),
        ensures
            found is Some <==> self@.contains_key(id@),
            found matches Some(node) ==> node@ == self@[id@] && node.patient_id@ == id@
                && node.wf(),
    {
        proof {
            lemma_keyed_domain(self.patients@, patient_key(), patient_model(), id@);
        }
        match find_patient(&self.patients, &id.to_owned()) {
            Some(at) => {
                proof {
                    lemma_keyed_value(self.patients@, patient_key(), patient_model(), at as int);
                }
                Some(&self.patients[at])
            },
            None => None,
        }
    }

    /// Adds one file. The patient, the study and the series that the file
    /// names are created where the catalogue does not have them yet; where
    /// it has them, they keep the name, description, date and modality they
    /// were created with. The file's path is appended to its series.
    pub fn insert(&mut self, entry: &CatalogEntry)
        requires
            old(self).wf(),
        ensures
            final(self).wf(),
            final(self)@ == catalog_after(old(self)@, entry@),
    {
        let ghost before = self.patients@;
        let at = match find_patient(&self.patients, &entry.patient_id) {
            Some(at) => {
                proof {
                    lemma_keyed_value(before, patient_key(), patient_model(), at as int);
                }
                at
            },
            None => {
                let fresh = PatientNode {
                    patient_id: entry.patient_id.clone(),
                    patient_name: entry.patient_name.clone(),
                    studies: Vec::new(),
                };
                proof {
                    lemma_keyed_push(before, patient_key(), patient_model(), fresh);
                }
                self.patients.push(fresh);
                self.patients.len() - 1
            },
        };
        let ghost between = self.patients@;
        self.patients[at].add(entry);
        proof {
            lemma_keyed_update(
                between,
                patient_key(),
                patient_model(),
                at as int,
                self.patients@[at as int],
            );
        }
    }

    /// Takes in the outcome of reading one file: a file that could not be
    /// read as DICOM leaves the catalogue as it is.
    pub fn record(&mut self, scanned: &Option<CatalogEntry>)
        requires
            old(self).wf(),
        ensures
            final(self).wf(),
            final(self)@ == match scanned {
                Some(entry) => catalog_after(old(self)@, entry@),
                None => old(self)@,
            },
    {
        match scanned {
            Some(entry) => self.insert(entry),
            None => {},
        }
    }

    /// The catalogue of a scan: of the files that were read, in the order of
    /// the scan; the others leave no trace.
    pub fn build(scan: &Vec<Option<CatalogEntry>>) -> (catalog: Catalog)
        ensures
            catalog.wf(),
            catalog@ == catalog_of_scan(scan@),
    {
        let mut catalog = Catalog::new();
        let mut i: usize = 0;
        while i < scan.len()
            invariant
                i <= scan.len(),
                catalog.wf(),
                catalog@ == catalog_of_scan(scan@.take(i as int)),
            decreases scan.len() - i,
        {
            assert(scan@.take(i + 1).drop_last() =~= scan@.take(i as int));
            catalog.record(&scan[i]);
            i = i + 1;
        }
        assert(scan@.take(i as int) =~= scan@);
        catalog
    }
}

/// The file belongs to the given series of the given study of the given
/// patient.
pub open spec fn in_series(
    e: EntryModel,
    patient: Seq<char>,
    study: Seq<char>,
    series: Seq<char>,
) -> bool {
    e.patient_id == patient && e.study_uid == study && e.series_uid == series
}

/// The paths of the files of one series, in the order of the files.
pub open spec fn paths_in_series(
    entries: Seq<CatalogEntry>,
    patient: Seq<char>,
    study: Seq<char>,
    series: Seq<char>,
) -> Seq<Seq<char>>
    decreases entries.len(),
{
    if entries.len() == 0 {
        Seq::empty()
    } else {
        let before = paths_in_series(entries.drop_last(), patient, study, series);
        if in_series(entries.last()@, patient, study, series) {
            before.push(entries.last()@.relative_path)
        } else {
            before
        }
    }
}

/// The series of a catalogue under a patient id, a study UID and a series
/// UID, if the catalogue has it.
pub open spec fn series_in(
    catalog: Map<Seq<char>, PatientModel>,
    patient: Seq<char>,
    study: Seq<char>,
    series: Seq<char>,
) -> Option<SeriesModel> {
    if catalog.contains_key(patient) && catalog[patient].studies.contains_key(study)
        && catalog[patient].studies[study].series.contains_key(series) {
        Some(catalog[patient].studies[study].series[series])
    } else {
        None
    }
}

/// The files of a scan that were read, in the order of the scan.
pub open spec fn readable(scan: Seq<Option<CatalogEntry>>) -> Seq<CatalogEntry>
    decreases scan.len(),
{
    if scan.len() == 0 {
        Seq::empty()
    } else {
        match scan.last() {
            Some(entry) => readable(scan.drop_last()).push(entry),
            None => readable(scan.drop_last()),
        }
    }
}

/// A catalogue has a series exactly when some file belongs to it, and the
/// image list of the series holds the paths of its files in the order in
/// which they were added, so that its image count is the number of those
/// files.
pub proof fn lemma_images_in_order(
    entries: Seq<CatalogEntry>,
    patient: Seq<char>,
    study: Seq<char>,
    series: Seq<char>,
)
    ensures
        match series_in(catalog_of(entries), patient, study, series) {
            Some(found) => found.images.len() > 0 && found.images == paths_in_series(
                entries,
                patient,
                study,
                series,
            ),
            None => paths_in_series(entries, patient, study, series).len() == 0,
        },
    decreases entries.len(),
{
    if entries.len() > 0 {
        lemma_images_in_order(entries.drop_last(), patient, study, series);
    }
}

/// Two files that name the same patient, study and series give a catalogue
/// of one patient with one study with one series, whose image list holds
/// the two paths in the order of the files. The series keeps the
/// description and the modality of the first file.
pub proof fn lemma_shared_series(first: CatalogEntry, second: CatalogEntry)
    requires
        first@.patient_id == second@.patient_id,
        first@.study_uid == second@.study_uid,
        first@.series_uid == second@.series_uid,
    ensures
        ({
            let catalog = catalog_of(seq![first, second]);
            let patient = catalog[first@.patient_id];
            let study = patient.studies[first@.study_uid];
            let series = study.series[first@.series_uid];
            &&& catalog.dom() == set![first@.patient_id]
            &&& patient.studies.dom() == set![first@.study_uid]
            &&& study.series.dom() == set![first@.series_uid]
            &&& series.images == seq![first@.relative_path, second@.relative_path]
            &&& series.images.len() == 2
            &&& series.description == first@.series_description
            &&& series.modality == first@.modality
        }),
{
    let one = seq![first];
    assert(catalog_of(one.drop_last()) == Map::<Seq<char>, PatientModel>::empty());
    assert(catalog_of(one) == catalog_after(Map::empty(), first@));
    assert(seq![first, second].drop_last() =~= one);
    assert(catalog_of(seq![first, second]) == catalog_after(catalog_of(one), second@));
}

/// A patient, a study or a series that the catalogue already has keeps what
/// it was created with when another file names it.
pub proof fn lemma_first_wins(catalog: Map<Seq<char>, PatientModel>, e: EntryModel)
    requires
        catalog.contains_key(e.patient_id),
    ensures
        ({
            let before = catalog[e.patient_id];
            let after = catalog_after(catalog, e)[e.patient_id];
            &&& after.name == before.name
            &&& before.studies.contains_key(e.study_uid) ==> {
                let study_before = before.studies[e.study_uid];
                let study_after = after.studies[e.study_uid];
                &&& study_after.description == study_before.description
                &&& study_after.date == study_before.date
                &&& study_before.series.contains_key(e.series_uid) ==> {
                    let series_before = study_before.series[e.series_uid];
                    let series_after = study_after.series[e.series_uid];
                    &&& series_after.description == series_before.description
                    &&& series_after.modality == series_before.modality
                }
            }
        }),
{
}

/// The catalogue of a scan is the catalogue of the files that were read.
pub proof fn lemma_scan_keeps_readable(scan: Seq<Option<CatalogEntry>>)
    ensures
        catalog_of_scan(scan) == catalog_of(readable(scan)),
    decreases scan.len(),
{
    if scan.len() > 0 {
        lemma_scan_keeps_readable(scan.drop_last());
        match scan.last() {
            Some(entry) => {
                let kept = readable(scan.drop_last()).push(entry);
                assert(kept.drop_last() =~= readable(scan.drop_last()));
            },
            None => {},
        }
    }
}

/// A file that could not be read is absent from the catalogue and changes
/// nothing for the other files: the scan without it gives the same
/// catalogue.
pub proof fn lemma_unreadable_leaves_no_trace(scan: Seq<Option<CatalogEntry>>, at: int)
    requires
        0 <= at < scan.len(),
        scan[at] is None,
    ensures
        catalog_of_scan(scan) == catalog_of_scan(scan.remove(at)),
    decreases scan.len(),
{
    if at == scan.len() - 1 {
        assert(scan.remove(at) =~= scan.drop_last());
    } else {
        lemma_unreadable_leaves_no_trace(scan.drop_last(), at);
        assert(scan.remove(at).drop_last() =~= scan.drop_last().remove(at));
    }
}

} // verus!
