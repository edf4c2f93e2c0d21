//! What components show.

use crate::message::components::{
    all_component_lines, all_told, attachment_of, component_lines, components_lines, components_told, empty_line,
    gallery_lines, is_told, section_text_width, separator_lines, text_lines, thumbnail_slot, AttachmentInfo,
    AttachmentMediaType, ComponentContext, ComponentMediaInfo, ComponentSelectKind, GalleryItem,
    MessageComponentInfo,
};
use crate::message::embed::inner_width;
use crate::message::embed_laws::lemma_not_told;
use crate::message::format_laws::short_text_is_one_line;
use crate::message::line::{LineView, MessageContentPreviewSlot};
use crate::message::rendered::RenderedView;
use crate::message::time::TimeFormat;
use crate::style::Style;
use crate::text::{contains_text, decimal, opt_text};
use crate::unicode::{all_space, display_width, is_plain};
use vstd::prelude::*;
use vstd::string::*;

verus! {

/// Whether lines are one line with a text in a style.
pub open spec fn is_line(lines: Seq<LineView>, text: Seq<char>, style: Style) -> bool {
    lines.len() == 1 && lines[0].text == text && lines[0].style == style
}

/// Whether a text can be shown in a line as it is.
pub open spec fn is_short(text: Seq<char>, width: usize) -> bool {
    is_plain(text) && 0 < text.len() <= width
}

/// What is there and not blank.
pub open spec fn shown(s: Option<String>) -> bool {
    s matches Some(t) && !all_space(t@)
}

proof fn lemma_text(ctx: ComponentContext, text: Seq<char>, width: usize, style: Style)
    requires
        ctx.table.len() == 0,
        is_short(text, width),
    ensures
        is_line(text_lines(ctx.table, text, width, style), text, style),
{
    let r = RenderedView { text, highlights: seq![], emoji_slots: seq![] };
    short_text_is_one_line(r, seq![], width, style, seq![]);
}

/// A button shows its emoji and its label in brackets, that it is disabled, and its address.
pub proof fn buttons_show_label_and_address(
    label: Option<String>,
    emoji: Option<String>,
    url: Option<String>,
    disabled: bool,
    ctx: ComponentContext,
    width: usize,
    next: usize,
    text: Seq<char>,
)
    requires
        ctx.table.len() == 0,
        is_short(text, width),
        text == "["@ + (if shown(emoji) && shown(label) {
            (emoji->0)@ + " "@ + (label->0)@
        } else if shown(emoji) {
            (emoji->0)@
        } else if shown(label) {
            (label->0)@
        } else {
            "Button"@
        }) + (if disabled {
            "] (disabled)"@
        } else {
            "]"@
        }) + (if url is Some {
            " "@ + (url->0)@
        } else {
            seq![]
        }),
    ensures
        ({
            let done = component_lines(MessageComponentInfo::Button { label, emoji, url, disabled }, ctx, width, next);
            is_line(done.lines, text, ctx.options.theme.message_body) && done.next == next
        }),
{
    reveal_strlit("");
    reveal_strlit("]");
    reveal_strlit(" ");
    reveal_strlit(" (disabled)");
    reveal_strlit("] (disabled)");
    assert("]"@ + " (disabled)"@ =~= "] (disabled)"@);
    let own = crate::message::components::button_text(label, emoji, url, disabled);
    assert(own =~= text);
    lemma_text(ctx, text, width, ctx.options.theme.message_body);
}

/// A menu shows its placeholder, or else its first three options, or else what it selects, and that it is disabled.
pub proof fn menus_show_placeholder_or_options(
    kind: ComponentSelectKind,
    placeholder: Option<String>,
    options: Vec<String>,
    disabled: bool,
    ctx: ComponentContext,
    width: usize,
    next: usize,
    text: Seq<char>,
)
    requires
        ctx.table.len() == 0,
        is_short(text, width),
        text == "[Select: "@ + (if shown(placeholder) {
            (placeholder->0)@
        } else if options@.len() == 0 {
            match kind {
                ComponentSelectKind::String => "options"@,
                ComponentSelectKind::User => "user"@,
                ComponentSelectKind::Role => "role"@,
                ComponentSelectKind::Mentionable => "mentionable"@,
                ComponentSelectKind::Channel => "channel"@,
            }
        } else if options@.len() == 1 {
            options@[0]@
        } else if options@.len() == 2 {
            options@[0]@ + ", "@ + options@[1]@
        } else {
            options@[0]@ + ", "@ + options@[1]@ + ", "@ + options@[2]@
        }) + (if disabled {
            "] (disabled)"@
        } else {
            "]"@
        }),
    ensures
        ({
            let done = component_lines(
                MessageComponentInfo::Select { kind, placeholder, options, disabled },
                ctx,
                width,
                next,
            );
            is_line(done.lines, text, ctx.options.theme.message_body) && done.next == next
        }),
{
    reveal_strlit("");
    reveal_strlit("]");
    reveal_strlit(" (disabled)");
    reveal_strlit("] (disabled)");
    assert("]"@ + " (disabled)"@ =~= "] (disabled)"@);
    let n = if options@.len() < 3 { options@.len() as int } else { 3 };
    let all = crate::text::texts(options@.take(n));
    reveal_with_fuel(crate::text::join_with, 4);
    if n == 1 {
        assert(crate::text::join_with(all, ", "@) =~= options@[0]@);
    }
    if n == 2 {
        assert(all.drop_last()[0] == options@[0]@);
        assert(crate::text::join_with(all, ", "@) =~= options@[0]@ + ", "@ + options@[1]@);
    }
    if n == 3 {
        assert(all.drop_last().drop_last()[0] == options@[0]@);
        assert(all.drop_last()[1] == options@[1]@);
        assert(crate::text::join_with(all, ", "@) =~= options@[0]@ + ", "@ + options@[1]@ + ", "@ + options@[2]@);
    }
    let own = crate::message::components::select_text(kind, placeholder, options@, disabled);
    assert(own =~= text);
    lemma_text(ctx, text, width, ctx.options.theme.message_body);
}

/// A text display shows its text.
pub proof fn text_displays_show_their_text(content: String, ctx: ComponentContext, width: usize, next: usize)
    requires
        ctx.table.len() == 0,
        is_short(content@, width),
    ensures
        ({
            let done = component_lines(MessageComponentInfo::TextDisplay { content }, ctx, width, next);
            is_line(done.lines, content@, ctx.options.theme.message_body) && done.next == next
        }),
{
    lemma_text(ctx, content@, width, ctx.options.theme.message_body);
}

/// A text that was rendered at the width is shown as it was rendered.
pub proof fn rendered_texts_are_shown(content: String, ctx: ComponentContext, width: usize, next: usize, i: int)
    requires
        content@.len() > 0,
        width > 0,
        0 <= i < ctx.table.len(),
        ctx.table[i].text@ == content@ && ctx.table[i].width == width,
        forall|j: int| 0 <= j < i ==> (#[trigger] ctx.table[j]).text@ != content@ || ctx.table[j].width != width,
    ensures
        component_lines(MessageComponentInfo::TextDisplay { content }, ctx, width, next).lines
            == crate::message::line::line_views(ctx.table[i].lines@),
{
    lemma_table(ctx.table, content@, width, ctx.options.theme.message_body, i);
}

proof fn lemma_table(
    table: Seq<crate::message::components::RenderedBlock>,
    text: Seq<char>,
    width: usize,
    style: Style,
    i: int,
)
    requires
        0 <= i < table.len(),
        table[i].text@ == text && table[i].width == width,
        forall|j: int| 0 <= j < i ==> (#[trigger] table[j]).text@ != text || table[j].width != width,
    ensures
        crate::message::components::block_lines(table, text, width, style) == crate::message::line::line_views(
            table[i].lines@,
        ),
    decreases i,
{
    if i > 0 {
        let rest = table.drop_first();
        assert forall|j: int| 0 <= j < i - 1 implies (#[trigger] rest[j]).text@ != text || rest[j].width != width by {
            assert(rest[j] == table[j + 1]);
        }
        assert(table[0].text@ != text || table[0].width != width);
        lemma_table(rest, text, width, style, i - 1);
    }
}

/// The words for a medium or a file: its kind, the description or the name of the file, and the dimensions.
pub open spec fn words_of(
    media: ComponentMediaInfo,
    description: Option<String>,
    attachment: Option<AttachmentInfo>,
) -> Seq<char> {
    let kind = match attachment {
        Some(a) => if a.media_type is Some {
            a.media_type
        } else {
            media.media_type
        },
        None => media.media_type,
    };
    let name = if shown(description) {
        (description->0)@
    } else if attachment is Some {
        (attachment->0).filename@
    } else {
        media.display_filename@
    };
    let (width, height) = match attachment {
        Some(a) => (a.width, a.height),
        None => (media.width, media.height),
    };
    (match kind {
        Some(AttachmentMediaType::Image) => "[image: "@,
        Some(AttachmentMediaType::Video) => "[video: "@,
        Some(AttachmentMediaType::Audio) => "[audio: "@,
        None => "[media: "@,
    }) + name + "]"@ + (if width is Some && height is Some {
        " "@ + decimal((width->0) as nat) + "x"@ + decimal((height->0) as nat)
    } else {
        seq![]
    })
}

/// Whether this is the attachment that a medium names: the first one with the name.
pub open spec fn is_named(media: ComponentMediaInfo, attachments: Seq<AttachmentInfo>, found: Option<AttachmentInfo>) -> bool {
    match found {
        Some(a) => exists|i: int|
            0 <= i < attachments.len() && #[trigger] attachments[i] == a && opt_text(media.attachment_filename) == Some(
                a.filename@,
            ) && forall|j: int| 0 <= j < i ==> opt_text(media.attachment_filename) != Some((#[trigger] attachments[j]).filename@),
        None => forall|j: int|
            0 <= j < attachments.len() ==> opt_text(media.attachment_filename) != Some((#[trigger] attachments[j]).filename@),
    }
}

proof fn lemma_named(media: ComponentMediaInfo, attachments: Seq<AttachmentInfo>)
    ensures
        is_named(media, attachments, attachment_of(media, attachments)),
    decreases attachments.len(),
{
    if attachments.len() > 0 && media.attachment_filename is Some {
        let rest = attachments.drop_first();
        lemma_named(media, rest);
        let found = attachment_of(media, attachments);
        if attachments[0].filename@ == (media.attachment_filename->0)@ {
            assert(attachments[0] == found->0);
        } else {
            match found {
                Some(a) => {
                    let i = choose|i: int|
                        0 <= i < rest.len() && #[trigger] rest[i] == a && forall|j: int|
                            0 <= j < i ==> opt_text(media.attachment_filename) != Some((#[trigger] rest[j]).filename@);
                    assert(attachments[i + 1] == a);
                    assert forall|j: int| 0 <= j < i + 1 implies opt_text(media.attachment_filename) != Some(
                        (#[trigger] attachments[j]).filename@,
                    ) by {
                        if j > 0 {
                            assert(rest[j - 1] == attachments[j]);
                        }
                    }
                },
                None => {
                    assert forall|j: int| 0 <= j < attachments.len() implies opt_text(media.attachment_filename) != Some(
                        (#[trigger] attachments[j]).filename@,
                    ) by {
                        if j > 0 {
                            assert(rest[j - 1] == attachments[j]);
                        }
                    }
                },
            }
        }
    }
}

/// A medium is shown with its kind, its description or its name, and its dimensions, as its attachment has them, where
/// it names one.
pub proof fn media_show_kind_name_and_size(
    media: ComponentMediaInfo,
    description: Option<String>,
    ctx: ComponentContext,
    width: usize,
    next: usize,
) -> (found: Option<AttachmentInfo>)
    ensures
        is_named(media, ctx.attachments, found),
        words_of(media, description, found).len() <= width ==> is_line(
            component_lines(MessageComponentInfo::Thumbnail { media, description }, ctx, width, next).lines,
            words_of(media, description, found),
            ctx.options.theme.message_attachment,
        ),
{
    let found = attachment_of(media, ctx.attachments);
    lemma_named(media, ctx.attachments);
    reveal_strlit("");
    reveal_strlit("[");
    reveal_strlit(": ");
    reveal_strlit("image");
    reveal_strlit("video");
    reveal_strlit("audio");
    reveal_strlit("media");
    reveal_strlit("[image: ");
    reveal_strlit("[video: ");
    reveal_strlit("[audio: ");
    reveal_strlit("[media: ");
    assert("["@ + "image"@ + ": "@ =~= "[image: "@);
    assert("["@ + "video"@ + ": "@ =~= "[video: "@);
    assert("["@ + "audio"@ + ": "@ =~= "[audio: "@);
    assert("["@ + "media"@ + ": "@ =~= "[media: "@);
    assert(crate::message::components::media_text(media, description, ctx.attachments) =~= words_of(
        media,
        description,
        found,
    ));
    found
}

/// A gallery shows its media one below the other, each as it would be shown by itself.
pub proof fn galleries_show_every_medium(items: Vec<GalleryItem>, ctx: ComponentContext, width: usize, next: usize, i: int)
    requires
        0 <= i < items@.len(),
    ensures
        ({
            let done = component_lines(MessageComponentInfo::MediaGallery { items }, ctx, width, next);
            &&& done.lines.len() == items@.len()
            &&& component_lines(
                MessageComponentInfo::Thumbnail { media: items@[i].media, description: items@[i].description },
                ctx,
                width,
                next,
            ).lines == seq![done.lines[i]]
        }),
{
    let done = component_lines(MessageComponentInfo::MediaGallery { items }, ctx, width, next);
    assert(done.lines == gallery_lines(items@, ctx, width));
    assert(component_lines(
        MessageComponentInfo::Thumbnail { media: items@[i].media, description: items@[i].description },
        ctx,
        width,
        next,
    ).lines =~= seq![done.lines[i]]);
}

/// A file is shown with its name and, where it is known, its size.
pub proof fn files_show_name_and_size(
    file: ComponentMediaInfo,
    name: Option<String>,
    size: Option<u64>,
    ctx: ComponentContext,
    width: usize,
    next: usize,
) -> (found: Option<AttachmentInfo>)
    ensures
        is_named(file, ctx.attachments, found),
        ({
            let bytes = if size is Some {
                size->0
            } else if found is Some {
                (found->0).size
            } else {
                0
            };
            let text = "[file: "@ + (if shown(name) {
                (name->0)@
            } else if found is Some {
                (found->0).filename@
            } else {
                file.display_filename@
            }) + "]"@ + (if bytes == 0 {
                seq![]
            } else {
                " · "@ + decimal(bytes as nat) + " bytes"@
            });
            text.len() <= width ==> is_line(
                component_lines(MessageComponentInfo::File { file, name, size }, ctx, width, next).lines,
                text,
                ctx.options.theme.message_attachment,
            )
        }),
{
    lemma_named(file, ctx.attachments);
    reveal_strlit("");
    attachment_of(file, ctx.attachments)
}

/// A separator is a rule through the width, if it has one, and an empty line, if it is to be large.
pub proof fn separators_are_rules(divider: bool, spacing: u32, ctx: ComponentContext, width: usize, next: usize)
    ensures
        ({
            let lines = component_lines(MessageComponentInfo::Separator { divider, spacing }, ctx, width, next).lines;
            let rules = if divider { 1int } else { 0 };
            &&& lines.len() == rules + (if spacing >= 2 { 1int } else { 0 })
            &&& divider ==> lines[0].text.len() == (if width == 0 { 1 } else { width as int }) && lines[0].style
                == ctx.options.theme.message_secondary && forall|i: int|
                0 <= i < lines[0].text.len() ==> #[trigger] lines[0].text[i] == '─'
            &&& spacing >= 2 ==> lines[rules].text.len() == 0
        }),
{
    let lines = separator_lines(divider, spacing, width, ctx.options.theme);
}

/// What a container holds is shown in it, behind a gutter.
pub proof fn containers_show_what_they_hold(
    components: Vec<MessageComponentInfo>,
    accent_color: Option<u32>,
    ctx: ComponentContext,
    width: usize,
    next: usize,
)
    requires
        width > display_width("  ▎ "@),
    ensures
        ({
            let inside = (width - display_width("  ▎ "@)) as usize;
            let held = components_lines(components, ctx, inside, next, components@.len() as int);
            let done = component_lines(MessageComponentInfo::Container { components, accent_color }, ctx, width, next);
            &&& done.next == held.next
            &&& done.lines.len() == held.lines.len()
            &&& forall|i: int|
                0 <= i < held.lines.len() ==> (#[trigger] done.lines[i]).text == "  ▎ "@ + held.lines[i].text
                    && done.lines[i].style == held.lines[i].style
        }),
{
    assert(crate::message::embed::gutter() == "  ▎ "@);
    assert(inner_width(width) == width - display_width("  ▎ "@));
}

/// The accessory of a section that is no thumbnail is shown below what the section holds.
pub proof fn sections_show_what_they_hold(
    components: Vec<MessageComponentInfo>,
    accessory: Option<Box<MessageComponentInfo>>,
    ctx: ComponentContext,
    width: usize,
    next: usize,
)
    requires
        accessory matches Some(a) ==> !(*a is Thumbnail),
    ensures
        ({
            let held = components_lines(components, ctx, width, next, components@.len() as int);
            let done = component_lines(MessageComponentInfo::Section { components, accessory }, ctx, width, next);
            &&& accessory is None ==> done == held
            &&& accessory matches Some(a) ==> done.lines == held.lines + component_lines(*a, ctx, width, held.next).lines
                && done.next == component_lines(*a, ctx, width, held.next).next
        }),
{
}

/// Beside a thumbnail the lines of a section stay, the first one carries the thumbnail, and there are at least as many
/// as it is high. Thumbnails are numbered one after the other. A thumbnail that is not shown as an image is described
/// below.
pub proof fn thumbnails_stand_beside_what_sections_hold(
    components: Vec<MessageComponentInfo>,
    accessory: Box<MessageComponentInfo>,
    ctx: ComponentContext,
    width: usize,
    next: usize,
)
    requires
        *accessory is Thumbnail,
        next < usize::MAX,
    ensures
        ({
            let media = (*accessory)->Thumbnail_media;
            let slot = thumbnail_slot(next, media, ctx.attachments, ctx.options.show_images, width);
            let inside = if slot is Some { section_text_width(width) } else { width };
            let held = components_lines(components, ctx, inside, (next + 1) as usize, components@.len() as int);
            let done = component_lines(
                MessageComponentInfo::Section { components, accessory: Some(accessory) },
                ctx,
                width,
                next,
            );
            &&& slot is Some ==> {
                &&& done.next == held.next
                &&& done.lines.len() >= held.lines.len()
                &&& done.lines.len() >= (slot->0).height
                &&& done.lines.len() > held.lines.len() ==> done.lines.len() == (slot->0).height
                &&& (slot->0).section_thumbnail_index == next
                &&& done.lines[0].preview_slots.contains(slot->0)
                &&& forall|i: int|
                    0 <= i < held.lines.len() ==> (#[trigger] done.lines[i]).text == held.lines[i].text
                        && done.lines[i].style == held.lines[i].style
                &&& forall|i: int|
                    held.lines.len() <= i < done.lines.len() ==> (#[trigger] done.lines[i]).text.len() == 0
            }
            &&& slot is None ==> done.lines == held.lines + component_lines(*accessory, ctx, width, held.next).lines
        }),
{
    let media = (*accessory)->Thumbnail_media;
    let slot = thumbnail_slot(next, media, ctx.attachments, ctx.options.show_images, width);
    if slot is Some {
        let held = components_lines(
            components,
            ctx,
            section_text_width(width),
            (next + 1) as usize,
            components@.len() as int,
        );
        let done = component_lines(
            MessageComponentInfo::Section { components, accessory: Some(accessory) },
            ctx,
            width,
            next,
        );
        lemma_beside(held.lines, slot->0);
        assert(done.lines == crate::message::components::beside_thumbnail(held.lines, slot->0));
    }
}

proof fn lemma_beside(lines: Seq<LineView>, slot: MessageContentPreviewSlot)
    requires
        slot.height > 0,
    ensures
        ({
            let all = crate::message::components::beside_thumbnail(lines, slot);
            &&& all.len() >= lines.len()
            &&& all.len() >= slot.height
            &&& all.len() > lines.len() ==> all.len() == slot.height
            &&& all[0].preview_slots.contains(slot)
            &&& forall|i: int|
                0 <= i < lines.len() ==> (#[trigger] all[i]).text == lines[i].text && all[i].style == lines[i].style
            &&& forall|i: int| lines.len() <= i < all.len() ==> (#[trigger] all[i]).text.len() == 0
        }),
{
    let all = crate::message::components::beside_thumbnail(lines, slot);
    let missing = if lines.len() < slot.height { slot.height - lines.len() } else { 0 };
    let padded = lines + Seq::new(missing as nat, |i: int| empty_line());
    assert(all[0].preview_slots[padded[0].preview_slots.len() as int] == slot);
}

/// What an action row holds is shown as it would be without the row.
pub proof fn rows_show_what_they_hold(components: Vec<MessageComponentInfo>, ctx: ComponentContext, width: usize, next: usize)
    ensures
        component_lines(MessageComponentInfo::ActionRow { components }, ctx, width, next) == components_lines(
            components,
            ctx,
            width,
            next,
            components@.len() as int,
        ),
{
}

/// Every component of a message is shown, one below the other: with the number at which the thumbnails in it start, its
/// lines stand among all lines, behind those of the components before it.
pub proof fn components_stand_below_each_other(
    components: Vec<MessageComponentInfo>,
    ctx: ComponentContext,
    width: usize,
    next: usize,
) -> (r: Seq<(int, usize)>)
    ensures
        ({
            let all = all_component_lines(components, ctx, width, next);
            let n = components@.len() as int;
            &&& r.len() == n + 1
            &&& r[0] == (0int, next)
            &&& r[n].1 == all.next
            &&& r[n].0 > 0 ==> r[n].0 == all.lines.len()
            &&& forall|i: int| 0 <= i < n ==> (#[trigger] is_stretch(all.lines, r, i, components@[i], ctx, width)) || r[n].0 == 0
            &&& r[n].0 == 0 && n > 0 ==> is_line(
                all.lines,
                crate::text::truncated("<unsupported message components>"@, width as int),
                ctx.options.theme.message_muted,
            )
            &&& n == 0 ==> all.lines.len() == 0
        }),
{
    let n = components@.len() as int;
    let r = lemma_stretches(components, ctx, width, next, n);
    r
}

/// Whether a component is shown from one place to the next.
pub open spec fn is_stretch(
    lines: Seq<LineView>,
    r: Seq<(int, usize)>,
    i: int,
    c: MessageComponentInfo,
    ctx: ComponentContext,
    width: usize,
) -> bool {
    &&& 0 <= r[i].0 <= r[i + 1].0 <= lines.len()
    &&& lines.subrange(r[i].0, r[i + 1].0) == component_lines(c, ctx, width, r[i].1).lines
    &&& r[i + 1].1 == component_lines(c, ctx, width, r[i].1).next
}

proof fn lemma_stretches(components: Vec<MessageComponentInfo>, ctx: ComponentContext, width: usize, next: usize, k: int) -> (r:
    Seq<(int, usize)>)
    requires
        0 <= k <= components@.len(),
    ensures
        ({
            let done = components_lines(components, ctx, width, next, k);
            &&& r.len() == k + 1
            &&& r[0] == (0int, next)
            &&& r[k] == (done.lines.len() as int, done.next)
            &&& forall|i: int| 0 <= i < k ==> #[trigger] is_stretch(done.lines, r, i, components@[i], ctx, width)
        }),
    decreases k,
{
    if k == 0 {
        seq![(0int, next)]
    } else {
        let before = components_lines(components, ctx, width, next, k - 1);
        let this = component_lines(components[k - 1], ctx, width, before.next);
        let done = components_lines(components, ctx, width, next, k);
        let front = lemma_stretches(components, ctx, width, next, k - 1);
        let r = front.push((done.lines.len() as int, done.next));
        assert forall|i: int| 0 <= i < k implies #[trigger] is_stretch(done.lines, r, i, components@[i], ctx, width) by {
            if i < k - 1 {
                assert(is_stretch(before.lines, front, i, components@[i], ctx, width));
                assert(done.lines.subrange(r[i].0, r[i + 1].0) =~= before.lines.subrange(front[i].0, front[i + 1].0));
            } else {
                assert(done.lines.subrange(r[i].0, r[i + 1].0) =~= this.lines);
            }
        }
        r
    }
}

/// Components without texts that tell times are laid out as they are.
pub proof fn buttons_and_menus_stay(c: MessageComponentInfo, told: MessageComponentInfo, time: TimeFormat)
    requires
        is_told(c, told, time),
    ensures
        c is Button || c is Thumbnail || c is File || c is Separator || c is Unknown ==> told == c,
        c matches MessageComponentInfo::TextDisplay { content } ==> !contains_text(content@, "<t:"@) ==> (told
            matches MessageComponentInfo::TextDisplay { content: same } && same@ == content@),
{
    if let MessageComponentInfo::TextDisplay { content } = c {
        if !contains_text(content@, "<t:"@) {
            if let MessageComponentInfo::TextDisplay { content: same } = told {
                lemma_not_told(content@, same@, time);
            }
        }
    }
}

/// Telling times keeps the number and the order of components.
pub proof fn every_component_is_told(v: Vec<MessageComponentInfo>, told: Vec<MessageComponentInfo>, time: TimeFormat, i: int)
    requires
        all_told(v, told, time),
        0 <= i < v@.len(),
    ensures
        told@.len() == v@.len(),
        is_told(v@[i], told@[i], time),
{
    lemma_told(v, told, time, v@.len() as int, i);
}

proof fn lemma_told(v: Vec<MessageComponentInfo>, told: Vec<MessageComponentInfo>, time: TimeFormat, k: int, i: int)
    requires
        components_told(v, told, time, k),
        0 <= i < k <= v@.len(),
    ensures
        is_told(v@[i], told@[i], time),
    decreases k,
{
    if i < k - 1 {
        lemma_told(v, told, time, k - 1, i);
    }
}

} // verus!
