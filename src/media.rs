use vstd::prelude::*;

verus! {

/// Lower-case file extensions of still images.
pub open spec fn is_image_ext(e: Seq<char>) -> bool {
    ||| e == "png"@
    ||| e == "jpg"@
    ||| e == "jpeg"@
    ||| e == "gif"@
    ||| e == "webp"@
    ||| e == "bmp"@
    ||| e == "tiff"@
}

/// `part` occurs in `s`.
pub open spec fn occurs_in(part: Seq<char>, s: Seq<char>) -> bool {
    exists|i: int| 0 <= i && i + part.len() <= s.len() && #[trigger] s.subrange(i, i + part.len()) == part
}

/// What `str::to_lowercase` makes of a string.
pub uninterp spec fn lower_of(s: Seq<char>) -> Seq<char>;

/// Relies on `str::to_lowercase`: the result depends on the characters alone.
#[verifier::external_body]
fn lowercase(s: &str) -> (r: String)
    ensures
        r@ == lower_of(s@),
{
    s.to_lowercase()
}

/// Relies on `Path::extension`: the extension is the text after the last `.` of the
/// final component, so a `.` followed by it occurs in the path.
#[verifier::external_body]
fn path_extension(p: &str) -> (r: Option<&str>)
    ensures
        r matches Some(e) ==> occurs_in(seq!['.'] + e@, p@),
{
    std::path::Path::new(p).extension().and_then(|e| e.to_str())
}

/// Whether `ext`, already in lower case, names a still-image format.
pub fn is_image_extension_name(ext: &str) -> (r: bool)
    ensures
        r == is_image_ext(ext@),
{
    proof {
        reveal_strlit("png");
        reveal_strlit("jpg");
        reveal_strlit("jpeg");
        reveal_strlit("gif");
        reveal_strlit("webp");
        reveal_strlit("bmp");
        reveal_strlit("tiff");
    }
    let v = crate::text::chars_of(ext);
    let n = v.len();
    if n == 3 {
        if v[0] == 'p' && v[1] == 'n' && v[2] == 'g' {
            assert(v@ =~= "png"@);
            return true;
        }
        if v[0] == 'j' && v[1] == 'p' && v[2] == 'g' {
            assert(v@ =~= "jpg"@);
            return true;
        }
        if v[0] == 'g' && v[1] == 'i' && v[2] == 'f' {
            assert(v@ =~= "gif"@);
            return true;
        }
        if v[0] == 'b' && v[1] == 'm' && v[2] == 'p' {
            assert(v@ =~= "bmp"@);
            return true;
        }
        assert(v@ != "png"@ && v@ != "jpg"@ && v@ != "gif"@ && v@ != "bmp"@) by {
            if v@ == "png"@ { assert(v@[0] == 'p' && v@[1] == 'n' && v@[2] == 'g'); }
            if v@ == "jpg"@ { assert(v@[0] == 'j' && v@[1] == 'p' && v@[2] == 'g'); }
            if v@ == "gif"@ { assert(v@[0] == 'g' && v@[1] == 'i' && v@[2] == 'f'); }
            if v@ == "bmp"@ { assert(v@[0] == 'b' && v@[1] == 'm' && v@[2] == 'p'); }
        }
        return false;
    }
    if n == 4 {
        if v[0] == 'j' && v[1] == 'p' && v[2] == 'e' && v[3] == 'g' {
            assert(v@ =~= "jpeg"@);
            return true;
        }
        if v[0] == 'w' && v[1] == 'e' && v[2] == 'b' && v[3] == 'p' {
            assert(v@ =~= "webp"@);
            return true;
        }
        if v[0] == 't' && v[1] == 'i' && v[2] == 'f' && v[3] == 'f' {
            assert(v@ =~= "tiff"@);
            return true;
        }
        assert(v@ != "jpeg"@ && v@ != "webp"@ && v@ != "tiff"@) by {
            if v@ == "jpeg"@ { assert(v@[0] == 'j' && v@[1] == 'p' && v@[2] == 'e' && v@[3] == 'g'); }
            if v@ == "webp"@ { assert(v@[0] == 'w' && v@[1] == 'e' && v@[2] == 'b' && v@[3] == 'p'); }
            if v@ == "tiff"@ { assert(v@[0] == 't' && v@[1] == 'i' && v@[2] == 'f' && v@[3] == 'f'); }
        }
        return false;
    }
    false
}

/// Whether the path names a still image, by its extension in any case.
pub fn is_image_extension(path: &str) -> (r: bool)
    ensures
        r ==> exists|e: Seq<char>| is_image_ext(e) && occurs_in(seq!['.'] + e, lower_of(path@)),
{
    let lower = lowercase(path);
    match path_extension(lower.as_str()) {
        Some(e) => {
            let r = is_image_extension_name(e);
            assert(r ==> is_image_ext(e@) && occurs_in(seq!['.'] + e@, lower_of(path@)));
            r
        },
        None => false,
    }
}

} // verus!
