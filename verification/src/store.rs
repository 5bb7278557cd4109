//! The layout of a saved project.
//!
//! Saving a project means making sure that two directories exist and writing
//! a handful of files. The functions here work out which, in which order and
//! with which contents; carrying the steps out is left to the caller. No step
//! is handed out unless every image of the project decodes, so a project with
//! a broken image leaves no trace on disk.

use vstd::prelude::*;
use vstd::slice::slice_to_vec;
use vstd::string::StringExecFns;
use vstd::utf8::encode_utf8;
use crate::data_url::{
    data_url_error, is_data_url_of, lemma_data_url_is_sound, strip_data_url_prefix, EncodingError,
};

verus! {

/// What saving reads of one image of a project: the name of the file to write
/// and the image itself, as a data URL.
#[derive(Debug, PartialEq, Eq)]
pub struct ImageSource {
    pub name: String,
    pub data_url: String,
}

/// One thing to do on disk.
#[derive(Debug, PartialEq, Eq)]
pub enum SaveStep {
    /// Make sure that the directory exists, creating it and its parents
    /// where they are missing.
    EnsureDirectory { path: String },
    /// Write the file, replacing what may be there.
    WriteFile { path: String, contents: Vec<u8> },
}

/// A [`SaveStep`] over mathematical sequences.
pub enum SaveStepView {
    EnsureDirectory { path: Seq<char> },
    WriteFile { path: Seq<char>, contents: Seq<u8> },
}

impl View for SaveStep {
    type V = SaveStepView;

    open spec fn view(&self) -> SaveStepView {
        match self {
            SaveStep::EnsureDirectory { path } => SaveStepView::EnsureDirectory { path: path@ },
            SaveStep::WriteFile { path, contents } => SaveStepView::WriteFile {
                path: path@,
                contents: contents@,
            },
        }
    }
}

/// The first image of a project that cannot be saved, and why.
#[derive(Clone, Copy, Debug, PartialEq, Eq, Structural)]
pub struct SaveError {
    /// Position of the image among those handed in.
    pub image: usize,
    pub cause: EncodingError,
}

/// Where the CSV text of a project goes.
pub open spec fn csv_path(project_path: Seq<char>, title: Seq<char>) -> Seq<char> {
    project_path + "/"@ + title + ".csv"@
}

/// Where the serialized record of a project goes.
pub open spec fn record_path(project_path: Seq<char>, title: Seq<char>) -> Seq<char> {
    project_path + "/"@ + title + ".bin"@
}

/// The directory that holds the images of a project, with the separator that
/// file names are appended to.
pub open spec fn images_folder(project_path: Seq<char>) -> Seq<char> {
    project_path + "/images/"@
}

/// `step` writes the decoded `image` to the file of its name in `folder`.
pub open spec fn writes_image(step: SaveStepView, folder: Seq<char>, image: ImageSource) -> bool {
    match step {
        SaveStepView::WriteFile { path, contents } => {
            &&& path == folder + image.name@
            &&& is_data_url_of(encode_utf8(image.data_url@), contents)
        },
        SaveStepView::EnsureDirectory { .. } => false,
    }
}

/// None of `images` has a broken data URL.
pub open spec fn all_decodable(images: Seq<ImageSource>) -> bool {
    forall|i: int|
        0 <= i < images.len() ==> data_url_error(encode_utf8((#[trigger] images[i]).data_url@))
            is None
}

/// `error` names the first of `images` whose data URL is broken, and says
/// what is wrong with it.
pub open spec fn is_first_failure(images: Seq<ImageSource>, error: SaveError) -> bool {
    &&& error.image < images.len()
    &&& data_url_error(encode_utf8(images[error.image as int].data_url@)) == Some(error.cause)
    &&& forall|i: int|
        0 <= i < error.image ==> data_url_error(encode_utf8((#[trigger] images[i]).data_url@))
            is None
}

/// `steps` is what saving `images` into `folder` comes to: the folder itself,
/// then one file for each image, in the order of the images.
pub open spec fn is_image_plan(
    steps: Seq<SaveStep>,
    folder: Seq<char>,
    images: Seq<ImageSource>,
) -> bool {
    &&& steps.len() == images.len() + 1
    &&& steps[0]@ == SaveStepView::EnsureDirectory { path: folder }
    &&& forall|i: int|
        0 <= i < images.len() ==> writes_image(steps[i + 1]@, folder, #[trigger] images[i])
}

/// `steps` is what saving a project comes to: its directory, the CSV text,
/// the serialized record, then the images in their folder.
pub open spec fn is_save_plan(
    steps: Seq<SaveStep>,
    project_path: Seq<char>,
    title: Seq<char>,
    csv_data: Seq<char>,
    record: Seq<u8>,
    images: Seq<ImageSource>,
) -> bool {
    &&& steps.len() == images.len() + 4
    &&& steps[0]@ == SaveStepView::EnsureDirectory { path: project_path }
    &&& steps[1]@ == SaveStepView::WriteFile {
        path: csv_path(project_path, title),
        contents: encode_utf8(csv_data),
    }
    &&& steps[2]@ == SaveStepView::WriteFile {
        path: record_path(project_path, title),
        contents: record,
    }
    &&& is_image_plan(steps.skip(3), images_folder(project_path), images)
}

/// There is a plan for sound images only, and a failure for broken ones
/// only: the two exclude each other.
pub proof fn plan_excludes_failure(
    steps: Seq<SaveStep>,
    folder: Seq<char>,
    images: Seq<ImageSource>,
    error: SaveError,
)
    ensures
        is_image_plan(steps, folder, images) ==> all_decodable(images),
        is_first_failure(images, error) ==> !all_decodable(images),
{
    if is_image_plan(steps, folder, images) {
        assert forall|i: int| 0 <= i < images.len() implies data_url_error(
            encode_utf8((#[trigger] images[i]).data_url@),
        ) is None by {
            assert(writes_image(steps[i + 1]@, folder, images[i]));
            lemma_data_url_is_sound(
                encode_utf8(images[i].data_url@),
                steps[i + 1]@->WriteFile_contents,
            );
        }
    }
    if is_first_failure(images, error) {
        let image = images[error.image as int];
        assert(data_url_error(encode_utf8(image.data_url@)) is Some);
    }
}

/// Works out how to save `images` into `folder`, a path that ends with its
/// separator.
pub fn plan_images(folder: &str, images: &Vec<ImageSource>) -> (result: Result<
    Vec<SaveStep>,
    SaveError,
>)
    ensures
        result is Ok <==> all_decodable(images@),
        match result {
            Ok(steps) => is_image_plan(steps@, folder@, images@),
            Err(error) => is_first_failure(images@, error),
        },
{
    let mut steps: Vec<SaveStep> = Vec::new();
    steps.push(SaveStep::EnsureDirectory { path: folder.to_owned() });
    let mut i: usize = 0;
    while i < images.len()
        invariant
            i <= images@.len(),
            steps@.len() == i + 1,
            steps@[0]@ == (SaveStepView::EnsureDirectory { path: folder@ }),
            forall|k: int| 0 <= k < i ==> writes_image(steps@[k + 1]@, folder@, #[trigger] images@[k]),
            forall|k: int|
                0 <= k < i ==> data_url_error(encode_utf8((#[trigger] images@[k]).data_url@))
                    is None,
        decreases images@.len() - i,
    {
        let image = &images[i];
        match strip_data_url_prefix(image.data_url.as_str()) {
            Ok(contents) => {
                proof {
                    lemma_data_url_is_sound(encode_utf8(image.data_url@), contents@);
                }
                let mut path = folder.to_owned();
                path.append(image.name.as_str());
                steps.push(SaveStep::WriteFile { path, contents });
            },
            Err(cause) => {
                assert(data_url_error(encode_utf8(images@[i as int].data_url@)) is Some);
                return Err(SaveError { image: i, cause });
            },
        }
        i += 1;
    }
    Ok(steps)
}

/// Works out how to save a project under `project_path`: the CSV text goes to
/// `<project_path>/<title>.csv`, the serialized record to
/// `<project_path>/<title>.bin`, and each image, decoded, to the file of its
/// name under `<project_path>/images/`.
pub fn plan_save(
    project_path: &str,
    title: &str,
    csv_data: &str,
    record: &[u8],
    images: &Vec<ImageSource>,
) -> (result: Result<Vec<SaveStep>, SaveError>)
    ensures
        result is Ok <==> all_decodable(images@),
        match result {
            Ok(steps) => is_save_plan(
                steps@,
                project_path@,
                title@,
                csv_data@,
                record@,
                images@,
            ),
            Err(error) => is_first_failure(images@, error),
        },
{
    let mut folder = project_path.to_owned();
    folder.append("/images/");
    let mut image_steps = match plan_images(folder.as_str(), images) {
        Ok(image_steps) => image_steps,
        Err(error) => {
            return Err(error);
        },
    };
    let mut csv = project_path.to_owned();
    csv.append("/");
    csv.append(title);
    csv.append(".csv");
    let mut bin = project_path.to_owned();
    bin.append("/");
    bin.append(title);
    bin.append(".bin");
    let mut steps: Vec<SaveStep> = Vec::new();
    steps.push(SaveStep::EnsureDirectory { path: project_path.to_owned() });
    steps.push(SaveStep::WriteFile { path: csv, contents: slice_to_vec(csv_data.as_bytes()) });
    steps.push(SaveStep::WriteFile { path: bin, contents: slice_to_vec(record) });
    let ghost images_part = image_steps@;
    steps.append(&mut image_steps);
    assert(steps@.skip(3) =~= images_part);
    Ok(steps)
}

} // verus!
