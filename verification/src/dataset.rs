//! Reading a DICOM object: its attributes with their fallbacks, the entry it
//! contributes to the catalogue, its metadata and its image.
//!
//! The object itself is a value of the `dicom` crate and opaque here. What
//! it holds is reached through two trusted functions at the top of this
//! file; everything below them is verified against their contracts.

use crate::catalog::{CatalogEntry, EntryModel};
use crate::pixel::{display_bytes, normalize, pixel_count, shortfall, SizeMismatch};
use dicom::object::DefaultDicomObject;
use vstd::prelude::*;

verus! {

/// `dicom::object::FileDicomObject`, a DICOM object as read from a file,
/// declared as an opaque type.
#[verifier::external_type_specification]
#[verifier::external_body]
#[verifier::reject_recursive_types(O)]
pub struct ExFileDicomObject<O>(dicom::object::FileDicomObject<O>);

/// `dicom::object::InMemDicomObject`, the data set inside a file object,
/// declared as an opaque type.
#[verifier::external_type_specification]
#[verifier::external_body]
#[verifier::reject_recursive_types(D)]
pub struct ExInMemDicomObject<D>(dicom::object::InMemDicomObject<D>);

/// `dicom::dictionary_std::StandardDataDictionary`, the dictionary by which
/// a data set knows its attribute names, declared as an opaque type.
#[verifier::external_type_specification]
#[verifier::external_body]
pub struct ExStandardDataDictionary(dicom::dictionary_std::StandardDataDictionary);

/// `dicom::pixeldata::Error`, the error of a failed decoding, declared as an
/// opaque type.
#[verifier::external_type_specification]
#[verifier::external_body]
pub struct ExPixelDataError(dicom::pixeldata::Error);

/// The text attributes of a DICOM object: under each attribute name that
/// the standard dictionary knows and for which the object holds a primitive
/// value, that value as one string, as `DataElement::to_str` gives it.
pub uninterp spec fn text_values(obj: DefaultDicomObject) -> Map<Seq<char>, Seq<char>>;

/// The integer attributes of a DICOM object: under each attribute name that
/// the standard dictionary knows and for which the object holds a value that
/// `DataElement::to_int` converts to a `u32`, that number.
pub uninterp spec fn integer_values(obj: DefaultDicomObject) -> Map<Seq<char>, u32>;

/// Calls `InMemDicomObject::element_by_name` and, on the element found,
/// `DataElement::to_str`. Trusted: the result is the entry of
/// [`text_values`] under `name`, and `None` where there is none, that is
/// where the name is unknown, the element absent or its value not primitive.
#[verifier::external_body]
fn text_value(obj: &DefaultDicomObject, name: &str) -> (value: Option<String>)
    ensures
        value is Some <==> text_values(*obj).contains_key(name@),
        value matches Some(text) ==> text@ == text_values(*obj)[name@],
{
    match obj.element_by_name(name) {
        Ok(element) => match element.to_str() {
            Ok(text) => Some(text.into_owned()),
            Err(_) => None,
        },
        Err(_) => None,
    }
}

/// Calls `InMemDicomObject::element_by_name` and, on the element found,
/// `DataElement::to_int` for `u32`. Trusted: the result is the entry of
/// [`integer_values`] under `name`, and `None` where there is none, that is
/// where the name is unknown, the element absent or its value not a `u32`.
#[verifier::external_body]
fn integer_value(obj: &DefaultDicomObject, name: &str) -> (value: Option<u32>)
    ensures
        value is Some <==> integer_values(*obj).contains_key(name@),
        value matches Some(number) ==> number == integer_values(*obj)[name@],
{
    match obj.element_by_name(name) {
        Ok(element) => match element.to_int::<u32>() {
            Ok(number) => Some(number),
            Err(_) => None,
        },
        Err(_) => None,
    }
}

/// The value under `name`, or the fallback where there is none.
pub open spec fn text_or_default(
    values: Map<Seq<char>, Seq<char>>,
    name: Seq<char>,
    default: Seq<char>,
) -> Seq<char> {
    if values.contains_key(name) {
        values[name]
    } else {
        default
    }
}

/// The number under `name`, or the fallback where there is none.
pub open spec fn number_or_default(values: Map<Seq<char>, u32>, name: Seq<char>, default: u32) -> u32 {
    if values.contains_key(name) {
        values[name]
    } else {
        default
    }
}

/// The text that was found, or the fallback.
pub fn text_or(value: Option<String>, default: &str) -> (text: String)
    ensures
        text@ == (match value {
            Some(found) => found@,
            None => default@,
        }),
{
    match value {
        Some(found) => found,
        None => default.to_owned(),
    }
}

/// The number that was found, or the fallback.
pub fn number_or(value: Option<u32>, default: u32) -> (number: u32)
    ensures
        number == (match value {
            Some(found) => found,
            None => default,
        }),
{
    match value {
        Some(found) => found,
        None => default,
    }
}

/// The text attribute `name` of the object, or `default` where the object
/// does not give one. Each attribute falls back on its own.
pub fn lookup_text(obj: &DefaultDicomObject, name: &str, default: &str) -> (text: String)
    ensures
        text@ == text_or_default(text_values(*obj), name@, default@),
{
    text_or(text_value(obj, name), default)
}

/// The integer attribute `name` of the object, or `default` where the
/// object does not give one.
pub fn lookup_number(obj: &DefaultDicomObject, name: &str, default: u32) -> (number: u32)
    ensures
        number == number_or_default(integer_values(*obj), name@, default),
{
    number_or(integer_value(obj, name), default)
}

/// The catalogue entry of a file with the given text attributes.
pub open spec fn entry_model(values: Map<Seq<char>, Seq<char>>, relative_path: Seq<char>) -> EntryModel {
    EntryModel {
        patient_id: text_or_default(values, "PatientID"@, "UNKNOWN"@),
        patient_name: text_or_default(values, "PatientName"@, "Unknown"@),
        study_uid: text_or_default(values, "StudyInstanceUID"@, "UNKNOWN_STUDY"@),
        study_description: text_or_default(values, "StudyDescription"@, ""@),
        study_date: text_or_default(values, "StudyDate"@, "Unknown"@),
        series_uid: text_or_default(values, "SeriesInstanceUID"@, "UNKNOWN_SERIES"@),
        series_description: text_or_default(values, "SeriesDescription"@, ""@),
        modality: text_or_default(values, "Modality"@, "Unknown"@),
        relative_path,
    }
}

/// What the file contributes to the catalogue: the patient, study and
/// series that it names, each attribute with its own fallback, and the path
/// under which the file was found.
pub fn catalog_entry(obj: &DefaultDicomObject, relative_path: String) -> (entry: CatalogEntry)
    ensures
        entry@ == entry_model(text_values(*obj), relative_path@),
{
    CatalogEntry {
        patient_id: lookup_text(obj, "PatientID", "UNKNOWN"),
        patient_name: lookup_text(obj, "PatientName", "Unknown"),
        study_uid: lookup_text(obj, "StudyInstanceUID", "UNKNOWN_STUDY"),
        study_description: lookup_text(obj, "StudyDescription", ""),
        study_date: lookup_text(obj, "StudyDate", "Unknown"),
        series_uid: lookup_text(obj, "SeriesInstanceUID", "UNKNOWN_SERIES"),
        series_description: lookup_text(obj, "SeriesDescription", ""),
        modality: lookup_text(obj, "Modality", "Unknown"),
        relative_path,
    }
}

/// The metadata of one file.
#[derive(Clone, Debug)]
pub struct DicomInfo {
    pub patient_name: String,
    pub study_date: String,
    pub modality: String,
    pub rows: u32,
    pub cols: u32,
    pub bits_allocated: u32,
    pub bits_stored: u32,
    pub photometric_interpretation: String,
}

/// The metadata of the object, each attribute with its own fallback.
pub fn dicom_info(obj: &DefaultDicomObject) -> (info: DicomInfo)
    ensures
        info.patient_name@ == text_or_default(text_values(*obj), "PatientName"@, "Unknown"@),
        info.study_date@ == text_or_default(text_values(*obj), "StudyDate"@, "Unknown"@),
        info.modality@ == text_or_default(text_values(*obj), "Modality"@, "Unknown"@),
        info.rows == number_or_default(integer_values(*obj), "Rows"@, 0),
        info.cols == number_or_default(integer_values(*obj), "Columns"@, 0),
        info.bits_allocated == number_or_default(integer_values(*obj), "BitsAllocated"@, 16),
        info.bits_stored == number_or_default(integer_values(*obj), "BitsStored"@, 16),
        info.photometric_interpretation@ == text_or_default(
            text_values(*obj),
            "PhotometricInterpretation"@,
            "MONOCHROME2"@,
        ),
{
    DicomInfo {
        patient_name: lookup_text(obj, "PatientName", "Unknown"),
        study_date: lookup_text(obj, "StudyDate", "Unknown"),
        modality: lookup_text(obj, "Modality", "Unknown"),
        rows: lookup_number(obj, "Rows", 0),
        cols: lookup_number(obj, "Columns", 0),
        bits_allocated: lookup_number(obj, "BitsAllocated", 16),
        bits_stored: lookup_number(obj, "BitsStored", 16),
        photometric_interpretation: lookup_text(obj, "PhotometricInterpretation", "MONOCHROME2"),
    }
}

/// The layout that a file declares for its pixel buffer.
#[derive(Clone, Debug)]
pub struct Geometry {
    pub rows: u32,
    pub cols: u32,
    pub bits_allocated: u32,
    pub samples_per_pixel: u32,
    pub photometric: String,
}

/// The mathematical content of a [`Geometry`].
pub struct GeometryModel {
    pub rows: u32,
    pub cols: u32,
    pub bits_allocated: u32,
    pub samples_per_pixel: u32,
    pub photometric: Seq<char>,
}

impl View for Geometry {
    type V = GeometryModel;

    open spec fn view(&self) -> GeometryModel {
        GeometryModel {
            rows: self.rows,
            cols: self.cols,
            bits_allocated: self.bits_allocated,
            samples_per_pixel: self.samples_per_pixel,
            photometric: self.photometric@,
        }
    }
}

impl GeometryModel {
    /// A display buffer of this geometry is one that a `Vec` can hold on
    /// this machine: at most `isize::MAX` bytes.
    pub open spec fn fits(self) -> bool {
        3 * pixel_count(self.rows, self.cols) <= isize::MAX
    }

    /// The display buffer of `decoded` under this geometry.
    pub open spec fn display(self, decoded: Seq<u8>) -> Seq<u8> {
        display_bytes(
            decoded,
            self.rows,
            self.cols,
            self.bits_allocated,
            self.samples_per_pixel,
            self.photometric,
        )
    }

    /// The shortfall of a decoded buffer of `len` bytes under this geometry.
    pub open spec fn warning(self, len: nat) -> Option<SizeMismatch> {
        shortfall(
            len,
            self.rows,
            self.cols,
            self.bits_allocated,
            self.samples_per_pixel,
            self.photometric,
        )
    }
}

/// The geometry that a file with the given attributes declares.
pub open spec fn declared_geometry(
    texts: Map<Seq<char>, Seq<char>>,
    numbers: Map<Seq<char>, u32>,
) -> GeometryModel {
    GeometryModel {
        rows: number_or_default(numbers, "Rows"@, 0),
        cols: number_or_default(numbers, "Columns"@, 0),
        bits_allocated: number_or_default(numbers, "BitsAllocated"@, 16),
        samples_per_pixel: number_or_default(numbers, "SamplesPerPixel"@, 1),
        photometric: text_or_default(texts, "PhotometricInterpretation"@, "MONOCHROME2"@),
    }
}

/// The geometry that the object declares, each attribute with its own
/// fallback.
pub fn geometry(obj: &DefaultDicomObject) -> (declared: Geometry)
    ensures
        declared@ == declared_geometry(text_values(*obj), integer_values(*obj)),
{
    Geometry {
        rows: lookup_number(obj, "Rows", 0),
        cols: lookup_number(obj, "Columns", 0),
        bits_allocated: lookup_number(obj, "BitsAllocated", 16),
        photometric: lookup_text(obj, "PhotometricInterpretation", "MONOCHROME2"),
        samples_per_pixel: lookup_number(obj, "SamplesPerPixel", 1),
    }
}

/// The image of one file, ready for display: its width, its height and its
/// display buffer of three bytes per pixel.
#[derive(Clone, Debug)]
pub struct DicomPixelData {
    pub width: u32,
    pub height: u32,
    pub data: Vec<u8>,
}

/// Why a file gave no image.
#[derive(Debug)]
pub enum ImageError {
    /// The pixel data could not be decoded.
    Decode(dicom::pixeldata::Error),
    /// The declared rows and columns ask for a display buffer larger than
    /// this machine can hold in one piece.
    TooLarge { rows: u32, cols: u32 },
}

/// The image of a decoded pixel buffer under the declared geometry, with
/// the warning of a buffer that is too short; `None` exactly where the
/// display buffer would be larger than this machine can hold in one piece.
pub fn display_image(declared: &Geometry, decoded: &[u8]) -> (shown: Option<
    (DicomPixelData, Option<SizeMismatch>),
>)
    ensures
        shown is Some <==> declared@.fits(),
        shown matches Some((image, warning)) ==> {
            &&& image.width == declared.cols
            &&& image.height == declared.rows
            &&& image.data@ == declared@.display(decoded@)
            &&& warning == declared@.warning(decoded@.len())
        },
{
    assert((declared.rows as int) * (declared.cols as int) <= 0xffff_ffff * 0xffff_ffff)
        by (nonlinear_arith)
        requires
            0 <= declared.rows <= 0xffff_ffff,
            0 <= declared.cols <= 0xffff_ffff,
    ;
    let bytes: u128 = (declared.rows as u128) * (declared.cols as u128) * 3;
    if bytes > isize::MAX as u128 {
        return None;
    }
    let (data, warning) = normalize(
        decoded,
        declared.rows,
        declared.cols,
        declared.bits_allocated,
        declared.samples_per_pixel,
        declared.photometric.as_str(),
    );
    Some((DicomPixelData { width: declared.cols, height: declared.rows, data }, warning))
}

/// The image of the object, from the outcome of decoding its pixel data.
///
/// A decoding that failed gives its error back. Bytes that were decoded are
/// normalised under the geometry that the object declares; where that
/// geometry asks for a display buffer larger than this machine can hold in
/// one piece, the answer is `TooLarge`.
pub fn pixel_data(
    obj: &DefaultDicomObject,
    decoded: Result<Vec<u8>, dicom::pixeldata::Error>,
) -> (result: Result<(DicomPixelData, Option<SizeMismatch>), ImageError>)
    ensures
        ({
            let declared = declared_geometry(text_values(*obj), integer_values(*obj));
            match decoded {
                Err(error) => result matches Err(ImageError::Decode(given)) && given == error,
                Ok(bytes) => if declared.fits() {
                    &&& result matches Ok((image, warning))
                    &&& image.width == declared.cols
                    &&& image.height == declared.rows
                    &&& image.data@ == declared.display(bytes@)
                    &&& warning == declared.warning(bytes@.len())
                } else {
                    &&& result matches Err(ImageError::TooLarge { rows, cols })
                    &&& rows == declared.rows
                    &&& cols == declared.cols
                },
            }
        }),
{
    match decoded {
        Ok(bytes) => {
            let declared = geometry(obj);
            match display_image(&declared, bytes.as_slice()) {
                Some(shown) => Ok(shown),
                None => Err(ImageError::TooLarge { rows: declared.rows, cols: declared.cols }),
            }
        },
        Err(error) => Err(ImageError::Decode(error)),
    }
}

} // verus!
