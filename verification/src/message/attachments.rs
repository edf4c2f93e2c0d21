//! Summaries of the files attached to a message.

use crate::message::components::{dimensions, format_dimensions, AttachmentInfo, AttachmentMediaType};
use crate::text::{join_strings, join_with, texts};
use vstd::prelude::*;
use vstd::string::*;

verus! {

/// What kind of file an attachment is.
pub open spec fn attachment_kind(a: AttachmentInfo) -> Seq<char> {
    match a.media_type {
        Some(AttachmentMediaType::Image) => "image"@,
        Some(AttachmentMediaType::Video) => "video"@,
        _ => "file"@,
    }
}

/// An attachment in words: its kind, its name and, where they are known, its dimensions.
pub open spec fn attachment_text(a: AttachmentInfo) -> Seq<char> {
    "["@ + attachment_kind(a) + ": "@ + a.filename@ + "]"@ + dimensions(a.width, a.height)
}

pub fn format_attachment(attachment: &AttachmentInfo) -> (r: String)
    ensures
        r@ == attachment_text(*attachment),
{
    let kind = match attachment.media_type {
        Some(AttachmentMediaType::Image) => "image",
        Some(AttachmentMediaType::Video) => "video",
        _ => "file",
    };
    let mut text = "[".to_owned();
    text.append(kind);
    text.append(": ");
    text.append(attachment.filename.as_str());
    text.append("]");
    let size = format_dimensions(attachment.width, attachment.height);
    text.append(size.as_str());
    text
}

/// All attachments in one line.
pub open spec fn attachment_summary(attachments: Seq<AttachmentInfo>) -> Seq<char> {
    join_with(attachments.map_values(|a: AttachmentInfo| attachment_text(a)), " | "@)
}

pub fn format_attachment_summary(attachments: &Vec<AttachmentInfo>) -> (r: String)
    ensures
        r@ == attachment_summary(attachments@),
{
    let ghost expected = attachments@.map_values(|a: AttachmentInfo| attachment_text(a));
    let mut parts: Vec<String> = Vec::new();
    let mut i: usize = 0;
    assert(texts(parts@) =~= expected.take(0));
    while i < attachments.len()
        invariant
            expected == attachments@.map_values(|a: AttachmentInfo| attachment_text(a)),
            i <= attachments@.len(),
            texts(parts@) == expected.take(i as int),
        decreases attachments@.len() - i,
    {
        let part = format_attachment(&attachments[i]);
        proof {
            assert(texts(parts@.push(part)) =~= texts(parts@).push(part@));
            assert(expected[i as int] == part@);
            assert(expected.take(i + 1) =~= expected.take(i as int).push(part@));
        }
        parts.push(part);
        i += 1;
    }
    assert(expected.take(i as int) =~= expected);
    join_strings(&parts, " | ")
}

} // verus!
