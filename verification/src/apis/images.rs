use crate::error::{ApiResult, Error};
use crate::mpart::fields::{FieldView, Mpart};
use vstd::prelude::*;
use vstd::string::StringExecFns;

verus! {

/// A request for images.
#[derive(Debug)]
pub struct ImagesBody {
    /// What the images shall show.
    pub prompt: Option<String>,
    /// How many images to make.
    pub n: Option<i32>,
    /// The size of the images.
    pub size: Option<String>,
    /// The form in which the images come back.
    pub response_format: Option<String>,
    /// Who the request is made for.
    pub user: Option<String>,
}

/// A request to edit an image, or for variations of it.
#[derive(Debug)]
pub struct ImagesEditBody<R> {
    /// The image.
    pub image: R,
    /// The mask that says where the image may change.
    pub mask: Option<R>,
    pub images_body: ImagesBody,
}

/// Where an image can be had.
#[derive(Debug)]
pub struct ImageData {
    pub url: String,
}

/// The images that a request gave.
#[derive(Debug)]
pub struct Image {
    pub created: u64,
    pub data: Option<Vec<ImageData>>,
}

/// The digit for a number below ten.
pub open spec fn digit(d: nat) -> char {
    (48 + d) as u8 as char
}

/// A number written in decimal digits, without leading zeros.
pub open spec fn decimal(n: nat) -> Seq<char>
    decreases n,
{
    if n < 10 {
        seq![digit(n)]
    } else {
        decimal(n / 10).push(digit(n % 10))
    }
}

/// A number written in decimal digits, with a minus sign where it is below
/// zero.
pub open spec fn signed_decimal(n: int) -> Seq<char> {
    if n < 0 {
        seq!['-'] + decimal((-n) as nat)
    } else {
        decimal(n as nat)
    }
}

/// Appends the decimal digits of `n` to `text`.
fn write_decimal(text: &mut String, n: u32)
    ensures
        final(text)@ == old(text)@ + decimal(n as nat),
    decreases n,
{
    if n >= 10 {
        write_decimal(text, n / 10);
    }
    let d: u8 = (n % 10) as u8;
    text.push((48u8 + d) as char);
}

/// A number in decimal digits, with a minus sign where it is below zero.
pub fn number_text(n: i32) -> (text: String)
    ensures
        text@ == signed_decimal(n as int),
{
    let mut text = String::new();
    if n < 0 {
        text.push('-');
        let magnitude: i64 = -(n as i64);
        write_decimal(&mut text, magnitude as u32);
    } else {
        write_decimal(&mut text, n as u32);
    }
    text
}

/// The text of `mime::IMAGE_PNG`, the media type of PNG images.
#[verifier::external_body]
fn image_png() -> (content_type: String)
    ensures
        content_type@ == "image/png"@,
{
    mime::IMAGE_PNG.to_string()
}

/// The text field called `name`, where there is a value for it.
pub open spec fn optional_text<R>(name: Seq<char>, value: Option<Seq<char>>) -> Seq<FieldView<R>> {
    match value {
        Some(value) => seq![FieldView::Text { name, value }],
        None => Seq::empty(),
    }
}

/// The field called `name` that sends `image` as a PNG image under the file
/// name `blob`.
pub open spec fn image_field<R>(name: Seq<char>, image: R) -> FieldView<R> {
    FieldView::Stream {
        name,
        filename: Some("blob"@),
        content_type: "image/png"@,
        source: image,
    }
}

/// The settings of a request for images as fields of a form, each where it
/// is set: the number of images, their size, the form in which they come
/// back, and who the request is made for.
pub open spec fn settings_fields<R>(body: ImagesBody) -> Seq<FieldView<R>> {
    optional_text(
        "n"@,
        match body.n {
            Some(n) => Some(signed_decimal(n as int)),
            None => None,
        },
    ) + optional_text(
        "size"@,
        match body.size {
            Some(size) => Some(size@),
            None => None,
        },
    ) + optional_text(
        "response_format"@,
        match body.response_format {
            Some(format) => Some(format@),
            None => None,
        },
    ) + optional_text(
        "user"@,
        match body.user {
            Some(user) => Some(user@),
            None => None,
        },
    )
}

/// The fields of a request to edit `image` after `prompt`: the prompt, the
/// settings, the mask where there is one, and the image.
pub open spec fn edit_fields<R>(prompt: Seq<char>, body: ImagesEditBody<R>) -> Seq<FieldView<R>> {
    seq![FieldView::Text { name: "prompt"@, value: prompt }] + settings_fields(body.images_body)
        + match body.mask {
        Some(mask) => seq![image_field("mask"@, mask)],
        None => Seq::empty(),
    } + seq![image_field("image"@, body.image)]
}

/// The fields of a request for variations of an image: the settings and the
/// image.
pub open spec fn variation_fields<R>(body: ImagesEditBody<R>) -> Seq<FieldView<R>> {
    settings_fields(body.images_body) + seq![image_field("image"@, body.image)]
}

/// Adds the settings of `body` to `form`.
fn add_settings<R>(form: &mut Mpart<R>, body: &ImagesBody)
    ensures
        final(form)@ == old(form)@ + settings_fields(*body),
{
    if let Some(n) = body.n {
        let text = number_text(n);
        form.add_text("n", text.as_str());
    }
    if let Some(size) = &body.size {
        form.add_text("size", size.as_str());
    }
    if let Some(response_format) = &body.response_format {
        form.add_text("response_format", response_format.as_str());
    }
    if let Some(user) = &body.user {
        form.add_text("user", user.as_str());
    }
}

/// Whether a request for images may be sent: it needs a prompt.
pub fn image_create(images_body: &ImagesBody) -> (r: ApiResult<()>)
    ensures
        match images_body.prompt {
            Some(_) => r is Ok,
            None => r matches Err(Error::ApiError(msg)) && msg@ == "Prompt is required."@,
        },
{
    if images_body.prompt.is_none() {
        return Err(Error::ApiError(String::from_str("Prompt is required.")));
    }
    Ok(())
}

/// The form that asks for an edit of an image. A request without a prompt
/// is refused.
pub fn image_edit<R>(images_edit_body: ImagesEditBody<R>) -> (r: ApiResult<Mpart<R>>)
    ensures
        match images_edit_body.images_body.prompt {
            Some(prompt) => r matches Ok(form) && form@ == edit_fields(prompt@, images_edit_body),
            None => r matches Err(Error::ApiError(msg)) && msg@ == "Prompt is required."@,
        },
{
    let prompt = match &images_edit_body.images_body.prompt {
        Some(prompt) => prompt,
        None => {
            return Err(Error::ApiError(String::from_str("Prompt is required.")));
        },
    };
    let mut send_data: Mpart<R> = Mpart::new();
    send_data.add_text("prompt", prompt.as_str());
    add_settings(&mut send_data, &images_edit_body.images_body);
    let png = image_png();
    if let Some(mask) = images_edit_body.mask {
        send_data.add_stream("mask", mask, Some("blob"), Some(png.as_str()));
    }
    send_data.add_stream("image", images_edit_body.image, Some("blob"), Some(png.as_str()));
    Ok(send_data)
}

/// The form that asks for variations of an image.
pub fn image_variation<R>(images_edit_body: ImagesEditBody<R>) -> (form: Mpart<R>)
    ensures
        form@ == variation_fields(images_edit_body),
{
    let mut send_data: Mpart<R> = Mpart::new();
    add_settings(&mut send_data, &images_edit_body.images_body);
    let png = image_png();
    send_data.add_stream("image", images_edit_body.image, Some("blob"), Some(png.as_str()));
    send_data
}

} // verus!
