//! The components that the pipeline needs on disk: what they are, whether they are there, and how
//! the missing ones are fetched.

use vstd::prelude::*;

pub mod archive;
pub mod catalog;
pub mod download;
pub mod import;
pub mod places;
pub mod status;

verus! {

/// One file of a component: where it comes from, where it goes, how large it is.
#[derive(Clone, Copy, Debug)]
pub struct FileSpec {
    pub url: &'static str,
    /// Where the file goes, or the temporary name of an archive. Relative to the root.
    pub dest_rel: &'static str,
    /// The expected size in bytes, 0 where it is not known.
    pub size: u64,
    pub extract: Extract,
}

/// What is done with a fetched file.
#[derive(Clone, Copy, Debug, PartialEq, Eq, Structural)]
pub enum Extract {
    /// It stays as it is.
    Keep,
    /// A zip archive whose files go, without their directories, beside the destination.
    ZipFlat,
    /// A zip archive of which only certain files are taken.
    ZipPick,
    /// A zip archive that is unpacked with its tree.
    ZipTree,
    /// A wheel of which the libraries are taken.
    WheelDlls,
}

/// How much the pipeline needs a component.
#[derive(Clone, Copy, Debug, PartialEq, Eq, Structural)]
pub enum Requirement {
    Required,
    Recommended,
    Optional,
}

/// How a component comes to the disk.
#[derive(Clone, Copy, Debug, PartialEq, Eq, Structural)]
pub enum Delivery {
    /// Over the network.
    Download,
    /// With the release.
    Bundled,
    /// Installed outside the application.
    External,
}

/// One component.
#[derive(Clone, Debug)]
pub struct Component {
    pub id: &'static str,
    pub name: &'static str,
    pub purpose: &'static str,
    pub requirement: Requirement,
    pub delivery: Delivery,
    /// The size of the whole in bytes.
    pub size: u64,
    /// What is fetched, for a component that is downloaded.
    pub files: Vec<FileSpec>,
    /// The component is there when all of these are.
    pub markers: Vec<Marker>,
    pub external_url: Option<&'static str>,
}

/// A file by which a component is recognised.
#[derive(Clone, Copy, Debug)]
pub struct Marker {
    pub rel: &'static str,
    /// The expected size, 0 where only the presence counts.
    pub expect: u64,
}

/// A file of a component, as a value.
pub struct FileModel {
    pub url: Seq<char>,
    pub dest_rel: Seq<char>,
    pub size: u64,
    pub extract: Extract,
}

/// A marker, as a value.
pub struct MarkerModel {
    pub rel: Seq<char>,
    pub expect: u64,
}

/// A component, as a value.
pub struct ComponentModel {
    pub id: Seq<char>,
    pub name: Seq<char>,
    pub purpose: Seq<char>,
    pub requirement: Requirement,
    pub delivery: Delivery,
    pub size: u64,
    pub files: Seq<FileModel>,
    pub markers: Seq<MarkerModel>,
    pub external_url: Option<Seq<char>>,
}

impl View for FileSpec {
    type V = FileModel;

    open spec fn view(&self) -> FileModel {
        FileModel {
            url: self.url@,
            dest_rel: self.dest_rel@,
            size: self.size,
            extract: self.extract,
        }
    }
}

impl View for Marker {
    type V = MarkerModel;

    open spec fn view(&self) -> MarkerModel {
        MarkerModel { rel: self.rel@, expect: self.expect }
    }
}

impl View for Component {
    type V = ComponentModel;

    open spec fn view(&self) -> ComponentModel {
        ComponentModel {
            id: self.id@,
            name: self.name@,
            purpose: self.purpose@,
            requirement: self.requirement,
            delivery: self.delivery,
            size: self.size,
            files: self.files@.map_values(|f: FileSpec| f@),
            markers: self.markers@.map_values(|m: Marker| m@),
            external_url: match self.external_url {
                Some(u) => Some(u@),
                None => None,
            },
        }
    }
}

} // verus!
