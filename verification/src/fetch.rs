//! curl: the commands that fetch a page or a file, and what their results mean.
use vstd::prelude::*;
use vstd::string::*;
use vstd::utf8::*;

use crate::command::CommandLine;
use crate::npm::Finished;
use crate::os::OsText;
use crate::{command, os, text};

verus! {

/// The command that fetches the page at `url`.
pub fn http_get_command(url: &str) -> (r: CommandLine)
    ensures
        r@ == command::plain_command(
            os::utf8("curl"@),
            seq![os::utf8("-fsSL"@), os::utf8("--max-time"@), os::utf8("60"@), os::utf8(url@)],
        ),
{
    let args: Vec<OsText> = vec![
        OsText::of("-fsSL"),
        OsText::of("--max-time"),
        OsText::of("60"),
        OsText::of(url),
    ];
    assert(args.deep_view() =~= seq![
        os::utf8("-fsSL"@),
        os::utf8("--max-time"@),
        os::utf8("60"@),
        os::utf8(url@),
    ]);
    CommandLine::plain(OsText::of("curl"), args)
}

/// The page at `url`, by how curl ended: its output, read as text.
pub fn http_get(url: &str, ran: Result<Finished, String>) -> (r: Result<String, String>)
    ensures
        text::text_result(r) == match ran {
            Ok(out) => if out.success {
                Ok(os::utf8_lossy(out.stdout@))
            } else {
                Err("请求 "@ + url@ + " 失败"@)
            },
            Err(e) => Err("curl 失败: "@ + e@),
        },
        ran matches Ok(out) ==> (out.success && valid_utf8(out.stdout@) ==> text::text_result(r)
            == Ok::<Seq<char>, Seq<char>>(decode_utf8(out.stdout@))),
{
    match ran {
        Ok(out) => if out.success {
            Ok(os::text_lossy(&out.stdout))
        } else {
            Err("请求 ".to_owned().concat(url).concat(" 失败"))
        },
        Err(e) => Err("curl 失败: ".to_owned().concat(e.as_str())),
    }
}

/// The command that fetches the file at `url` to `dest`.
pub fn http_download_command(url: &str, dest: &OsText) -> (r: CommandLine)
    ensures
        r@ == command::plain_command(
            os::utf8("curl"@),
            seq![
                os::utf8("-fL"@),
                os::utf8("--retry"@),
                os::utf8("2"@),
                os::utf8("--max-time"@),
                os::utf8("600"@),
                os::utf8("-o"@),
                dest@,
                os::utf8(url@),
            ],
        ),
{
    let args: Vec<OsText> = vec![
        OsText::of("-fL"),
        OsText::of("--retry"),
        OsText::of("2"),
        OsText::of("--max-time"),
        OsText::of("600"),
        OsText::of("-o"),
        dest.clone(),
        OsText::of(url),
    ];
    assert(args.deep_view() =~= seq![
        os::utf8("-fL"@),
        os::utf8("--retry"@),
        os::utf8("2"@),
        os::utf8("--max-time"@),
        os::utf8("600"@),
        os::utf8("-o"@),
        dest@,
        os::utf8(url@),
    ]);
    CommandLine::plain(OsText::of("curl"), args)
}

/// What fetching the file at `url` comes to, by whether curl succeeded.
pub fn http_download(url: &str, ran: Result<bool, String>) -> (r: Result<(), String>)
    ensures
        text::unit_result(r) == match ran {
            Ok(success) => if success {
                Ok(())
            } else {
                Err("下载失败: "@ + url@)
            },
            Err(e) => Err("curl 失败: "@ + e@),
        },
{
    match ran {
        Ok(success) => if success {
            Ok(())
        } else {
            Err("下载失败: ".to_owned().concat(url))
        },
        Err(e) => Err("curl 失败: ".to_owned().concat(e.as_str())),
    }
}

} // verus!
