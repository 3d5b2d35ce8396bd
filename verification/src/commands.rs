//! The commands of the application, each as a function of what the
//! application has read or been told.
//!
//! Of the two ways in which a video can be named and fetched, this library
//! takes one: names are given out in sequence, `base-0`, `base-1` and so on,
//! and the body of the response is fetched whole before it is written.

use vstd::prelude::*;
use vstd::string::*;
use crate::download::{initial_plan, SaveVideo};
use crate::naming::{names_of, next_filename, next_name};
use crate::paths::{base_name, final_component, invalid_folder_path};

verus! {

/// A listing of a folder as the contracts see it: the names of its entries,
/// or the message with which reading it failed.
pub open spec fn listing_view(listing: Result<Vec<String>, String>) -> Result<
    Seq<Seq<char>>,
    Seq<char>,
> {
    match listing {
        Ok(entries) => Ok(names_of(entries@)),
        Err(message) => Err(message@),
    }
}

/// A name or a message as the contracts see it.
pub open spec fn reply_view(reply: Result<String, String>) -> Result<Seq<char>, Seq<char>> {
    match reply {
        Ok(text) => Ok(text@),
        Err(message) => Err(message@),
    }
}

/// The greeting for `name`.
pub open spec fn greeting(name: Seq<char>) -> Seq<char> {
    "Hello, "@ + name + "! You've been greeted from Rust!"@
}

/// Greets `name`.
pub fn greet(name: &str) -> (text: String)
    ensures
        text@ == greeting(name@),
{
    let mut text = String::from_str("Hello, ");
    text.append(name);
    text.append("! You've been greeted from Rust!");
    text
}

/// The message for a folder dialog that was closed without a choice.
pub open spec fn no_folder_selected() -> Seq<char> {
    "No folder selected"@
}

/// The answer to a request for a folder, given what the folder dialog came
/// back with: the chosen path, or the message `No folder selected` where the
/// dialog was closed without a choice.
pub fn select_folder(picked: Option<String>) -> (reply: Result<String, String>)
    ensures
        reply_view(reply) == match picked {
            Some(path) => Ok::<Seq<char>, Seq<char>>(path@),
            None => Err(no_folder_selected()),
        },
{
    match picked {
        Some(path) => Ok(path),
        None => Err(String::from_str("No folder selected")),
    }
}

/// What `get_next_filename` answers, given the final component of the
/// folder's path and the folder's listing.
pub open spec fn next_filename_reply(
    component: Option<Seq<char>>,
    listing: Result<Seq<Seq<char>>, Seq<char>>,
) -> Result<Seq<char>, Seq<char>> {
    match component {
        None => Err(invalid_folder_path()),
        Some(base) => match listing {
            Err(message) => Err(message),
            Ok(names) => Ok(next_name(base, names)),
        },
    }
}

/// The name for the next video in the folder `folder_path`, whose listing is
/// `listing`. The base name is the final component of the folder's path; a
/// path without one is turned down with `Invalid folder path`, whatever the
/// listing. A listing that failed is passed on with its message. Otherwise
/// the answer is the base name, a `-`, and one more than the greatest number
/// that an entry carries, without extension.
pub fn get_next_filename(folder_path: &str, listing: Result<Vec<String>, String>) -> (reply:
    Result<String, String>)
    ensures
        reply_view(reply) == next_filename_reply(
            final_component(folder_path@),
            listing_view(listing),
        ),
{
    match base_name(folder_path) {
        Err(message) => Err(message),
        Ok(base) => match listing {
            Err(message) => Err(message),
            Ok(entries) => Ok(next_filename(base.as_str(), &entries)),
        },
    }
}

/// Begins the saving of the video at `video_path` into the folder
/// `folder_path`, whose listing is `listing`. The plan that comes back says
/// what to do first; `SaveVideo::advance` says what to do after that.
pub fn save_video(video_path: &str, folder_path: &str, listing: Result<Vec<String>, String>) -> (plan:
    SaveVideo)
    ensures
        plan@ == initial_plan(
            video_path@,
            folder_path@,
            next_filename_reply(final_component(folder_path@), listing_view(listing)),
        ),
{
    SaveVideo::begin(video_path, folder_path, get_next_filename(folder_path, listing))
}

} // verus!
