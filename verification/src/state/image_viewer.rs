//! The viewer of the images of a message.

use crate::discord::AppCommand;
use crate::ids::MessageId;
use crate::state::model::{MessageActionItem, MessageActionKind};
use crate::state::scroll::{clamp_selected_index, last_of, least, min_of, minus};
use vstd::prelude::*;
use vstd::string::*;

verus! {

/// How many things can be done in the viewer.
pub const IMAGE_VIEWER_ACTION_COUNT: usize = 1;

/// An image of a message.
#[derive(Debug, PartialEq, Eq)]
pub struct ViewerImage {
    pub filename: String,
    pub url: String,
}

/// The image that the viewer shows: its number, and how many there are.
#[derive(Debug, PartialEq, Eq)]
pub struct ImageViewerItem {
    pub index: usize,
    pub total: usize,
    pub filename: String,
    pub url: String,
}

#[derive(Clone, Copy, Debug, PartialEq, Eq, Structural)]
pub struct ImageViewerState {
    pub message_id: MessageId,
    pub selected: usize,
    pub action_menu_selected: Option<usize>,
}

/// The viewer, opened for a message that has images.
pub fn open_image_viewer(show_images: bool, message_id: Option<MessageId>, images: usize) -> (r: Option<ImageViewerState>)
    ensures
        r == (if show_images && message_id is Some && images > 0 {
            Some(ImageViewerState { message_id: message_id->0, selected: 0, action_menu_selected: None })
        } else {
            None
        }),
{
    match message_id {
        Some(message_id) => {
            if show_images && images > 0 {
                Some(ImageViewerState { message_id, selected: 0, action_menu_selected: None })
            } else {
                None
            }
        },
        None => None,
    }
}

/// The place of the image that is shown.
pub open spec fn shown_image(viewer: ImageViewerState, images: int) -> int {
    least(viewer.selected as int, last_of(images))
}

impl ImageViewerState {
    pub open spec fn item(self, images: Seq<ViewerImage>) -> Option<ImageViewerItem> {
        if images.len() == 0 {
            None
        } else {
            let at = shown_image(self, images.len() as int);
            Some(
                ImageViewerItem {
                    index: (at + 1) as usize,
                    total: images.len() as usize,
                    filename: images[at].filename,
                    url: images[at].url,
                },
            )
        }
    }

    pub fn selected_image_viewer_item(&self, images: &Vec<ViewerImage>) -> (r: Option<ImageViewerItem>)
        ensures
            r == self.item(images@),
    {
        if images.len() == 0 {
            return None;
        }
        let at = clamp_selected_index(self.selected, images.len());
        Some(
            ImageViewerItem {
                index: at.saturating_add(1),
                total: images.len(),
                filename: images[at].filename.clone(),
                url: images[at].url.clone(),
            },
        )
    }

    pub fn open_image_viewer_action_menu(&mut self, images: usize)
        ensures
            *final(self) == (if images > 0 {
                ImageViewerState { action_menu_selected: Some(0), ..*old(self) }
            } else {
                *old(self)
            }),
    {
        if images > 0 {
            self.action_menu_selected = Some(0);
        }
    }

    pub fn close_image_viewer_action_menu(&mut self)
        ensures
            *final(self) == (ImageViewerState { action_menu_selected: None, ..*old(self) }),
    {
        self.action_menu_selected = None;
    }

    pub fn move_image_viewer_previous(&mut self)
        ensures
            *final(self) == (ImageViewerState { selected: minus(old(self).selected as int, 1) as usize, ..*old(self) }),
    {
        self.selected = self.selected.saturating_sub(1);
    }

    /// Shows the next image. A message that lost its images closes the viewer.
    pub fn move_image_viewer_next(&mut self, images: usize) -> (open: bool)
        ensures
            open == (images > 0),
            *final(self) == (if images > 0 {
                ImageViewerState { selected: least(old(self).selected + 1, images - 1) as usize, ..*old(self) }
            } else {
                *old(self)
            }),
    {
        if images == 0 {
            return false;
        }
        self.selected = min_of(self.selected.saturating_add(1), images - 1);
        true
    }

    /// What can be done with the image that is shown.
    pub fn selected_image_viewer_action_items(&self, images: usize) -> (r: Vec<MessageActionItem>)
        ensures
            images == 0 ==> r@.len() == 0,
            images > 0 ==> r@.len() == IMAGE_VIEWER_ACTION_COUNT && r@[0].kind == MessageActionKind::DownloadImage
                && r@[0].label@ == "Download image"@ && r@[0].enabled,
    {
        let mut out: Vec<MessageActionItem> = Vec::new();
        if images > 0 {
            out.push(
                MessageActionItem {
                    kind: MessageActionKind::DownloadImage,
                    label: "Download image".to_string(),
                    enabled: true,
                },
            );
        }
        out
    }

    pub fn selected_image_viewer_action_index(&self) -> (r: Option<usize>)
        ensures
            r == (match self.action_menu_selected {
                Some(selected) => Some(least(selected as int, IMAGE_VIEWER_ACTION_COUNT - 1) as usize),
                None => None,
            }),
    {
        match self.action_menu_selected {
            Some(selected) => Some(clamp_selected_index(selected, IMAGE_VIEWER_ACTION_COUNT)),
            None => None,
        }
    }

    /// Does what is selected in the open menu: the image is downloaded.
    pub fn activate_selected_image_viewer_action(&mut self, images: &Vec<ViewerImage>) -> (r: Option<AppCommand>)
        ensures
            r == (if images@.len() > 0 && old(self).action_menu_selected is Some {
                let item = old(self).item(images@)->0;
                Some(AppCommand::DownloadAttachment { url: item.url, filename: item.filename })
            } else {
                None
            }),
            *final(self) == (if r is Some {
                ImageViewerState { action_menu_selected: None, ..*old(self) }
            } else {
                *old(self)
            }),
    {
        let item = match self.selected_image_viewer_item(images) {
            Some(item) => item,
            None => {
                return None;
            },
        };
        if self.action_menu_selected.is_none() {
            return None;
        }
        self.action_menu_selected = None;
        Some(AppCommand::DownloadAttachment { url: item.url, filename: item.filename })
    }

    /// Does what a key stands for. `shortcut` is the key of the one thing that can be done.
    pub fn activate_image_viewer_action_shortcut(
        &mut self,
        images: &Vec<ViewerImage>,
        pressed: char,
        shortcut: Option<char>,
    ) -> (r: Option<AppCommand>)
        ensures
            r == (if images@.len() > 0 && shortcut == Some(ascii_lower(pressed)) {
                let item = old(self).item(images@)->0;
                Some(AppCommand::DownloadAttachment { url: item.url, filename: item.filename })
            } else {
                None
            }),
            *final(self) == (if r is Some {
                ImageViewerState { action_menu_selected: None, ..*old(self) }
            } else {
                *old(self)
            }),
    {
        let key = to_ascii_lower(pressed);
        let matches = match shortcut {
            Some(shortcut) => shortcut == key,
            None => false,
        };
        if images.len() == 0 || !matches {
            return None;
        }
        self.action_menu_selected = Some(0);
        self.activate_selected_image_viewer_action(images)
    }
}

/// A letter of the alphabet in lower case, and any other character as it is.
pub open spec fn ascii_lower(c: char) -> char {
    if 'A' <= c && c <= 'Z' {
        ((c as u32 + 32) as u8) as char
    } else {
        c
    }
}

pub fn to_ascii_lower(c: char) -> (r: char)
    ensures
        r == ascii_lower(c),
{
    if 'A' <= c && c <= 'Z' {
        (c as u32 + 32) as u8 as char
    } else {
        c
    }
}

} // verus!
