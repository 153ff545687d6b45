//! The document model of the toolkit: resources, sizes and offsets, and the
//! window description with its event handlers.

use std::rc::Rc;
use vstd::prelude::*;
use crate::utils::{partial_max, spec_ge};
use vstd::std_specs::cmp::PartialOrdSpec;

verus! {

/// Handle of an element of the document.
#[derive(Clone, Copy, Debug, PartialEq, Eq, Structural, Hash)]
pub struct DakotaId {
    pub id: usize,
}

#[derive(Clone, Copy, Debug, PartialEq, Eq, Structural)]
pub enum Format {
    ARGB8888,
}

/// An image resource: its pixel format and where its bytes come from.
#[derive(Debug)]
pub struct Image {
    pub format: Format,
    pub data: Data,
}

#[derive(Debug)]
pub struct Hints {
    pub constant: bool,
}

/// Where the bytes of a resource come from.
#[derive(Debug)]
pub struct Data {
    pub rel_path: Option<String>,
    pub abs_path: Option<String>,
}

/// Why a resource has no usable path.
#[derive(Clone, Copy, Debug, PartialEq, Eq, Structural)]
pub enum PathError {
    /// Both a relative and an absolute path were given.
    BothPathsSpecified,
    /// Neither path was given.
    NoPathSpecified,
}

impl Data {
    /// The filesystem path this resource should be loaded from. Exactly one
    /// of the two kinds of path must be given.
    pub fn get_fs_path<'a>(&'a self) -> (r: Result<&'a String, PathError>)
        ensures
            self.rel_path.is_some() && self.abs_path.is_some() ==> r == Err::<&String, PathError>(
                PathError::BothPathsSpecified,
            ),
            self.rel_path.is_none() && self.abs_path.is_none() ==> r == Err::<&String, PathError>(
                PathError::NoPathSpecified,
            ),
            self.rel_path.is_some() && self.abs_path.is_none() ==> r is Ok && *r.unwrap() == self.rel_path.unwrap(),
            self.rel_path.is_none() && self.abs_path.is_some() ==> r is Ok && *r.unwrap() == self.abs_path.unwrap(),
    {
        if self.rel_path.is_some() && self.abs_path.is_some() {
            return Err(PathError::BothPathsSpecified);
        }
        if let Some(path) = self.rel_path.as_ref() {
            Ok(path)
        } else if let Some(path) = self.abs_path.as_ref() {
            Ok(path)
        } else {
            Err(PathError::NoPathSpecified)
        }
    }
}

#[derive(Debug)]
pub struct Content {
    pub el: DakotaId,
}

#[derive(Clone, Copy, Debug, PartialEq, Eq, Structural)]
pub struct Constant {
    pub val: u32,
}

#[derive(Clone, Copy, Debug, PartialEq, Eq, Structural)]
pub struct Offset<T: Copy> {
    pub x: T,
    pub y: T,
}

impl<T: PartialOrd + Copy> Offset<T> {
    pub fn new(w: T, h: T) -> (r: Self)
        ensures
            r.x == w,
            r.y == h,
    {
        Offset { x: w, y: h }
    }

    /// Grows this offset to cover `other` on each axis.
    pub fn union(&mut self, other: &Self)
        ensures
            T::obeys_partial_cmp_spec() ==> final(self).x == (if spec_ge(old(self).x, other.x) {
                old(self).x
            } else {
                other.x
            }) && final(self).y == (if spec_ge(old(self).y, other.y) {
                old(self).y
            } else {
                other.y
            }),
    {
        self.x = partial_max(self.x, other.x);
        self.y = partial_max(self.y, other.y);
    }
}

#[derive(Clone, Copy, Debug, PartialEq, Eq, Structural)]
pub struct Size<T: Copy> {
    pub width: T,
    pub height: T,
}

impl<T: PartialOrd + Copy> Size<T> {
    pub fn new(w: T, h: T) -> (r: Self)
        ensures
            r.width == w,
            r.height == h,
    {
        Size { width: w, height: h }
    }

    /// Grows this size to cover `other` in each dimension.
    pub fn union(&mut self, other: &Self)
        ensures
            T::obeys_partial_cmp_spec() ==> final(self).width == (if spec_ge(
                old(self).width,
                other.width,
            ) {
                old(self).width
            } else {
                other.width
            }) && final(self).height == (if spec_ge(old(self).height, other.height) {
                old(self).height
            } else {
                other.height
            }),
    {
        self.width = partial_max(self.width, other.width);
        self.height = partial_max(self.height, other.height);
    }
}

/// The boundary behavior of the edges of a box: whether scrolling is
/// allowed on each axis.
#[derive(Debug)]
pub struct Edges {
    pub horizontal: Option<bool>,
    pub vertical: Option<bool>,
}

impl Default for Edges {
    fn default() -> (r: Self)
        ensures
            r.horizontal.is_none(),
            r.vertical == Some(true),
    {
        Edges { horizontal: None, vertical: Some(true) }
    }
}

/// A named event handler to run, with the arguments to pass to it.
#[derive(Debug)]
pub struct Event {
    pub groups: Vec<String>,
    pub id: Option<DakotaId>,
    pub args: Rc<Vec<String>>,
}

/// Handlers for desktop-wide window events.
#[derive(Debug)]
pub struct WindowEvents {
    pub resize: Option<Event>,
    pub redraw_complete: Option<Event>,
    pub closed: Option<Event>,
}

#[derive(Debug)]
pub struct Window {
    pub id: u32,
    pub title: String,
    pub width: u32,
    pub height: u32,
    pub events: Option<WindowEvents>,
    pub root_element: DakotaId,
}

#[derive(Debug)]
pub struct DakotaDOM {
    pub version: String,
    pub resource_map: Option<DakotaId>,
    pub window: Window,
}

} // verus!
