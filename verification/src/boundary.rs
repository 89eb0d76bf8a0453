//! The write boundary of a workspace: the extension pi loads to keep
//! `write` and `edit` inside the workspace unless a path was approved.

use vstd::prelude::*;
use crate::text::{chars_of, concat_chars, replace_char, replace_chars, string_of};

verus! {

/// The extension source up to the workspace directory.
pub const BOUNDARY_HEAD: &'static str = "// Auto-generated by piter (0.3.0 workspace write boundary).\n// Blocks write/edit outside the workspace unless approved in .pi/approvals.json.\nimport * as fs from \"node:fs\";\nimport * as path from \"node:path\";\nimport type { ExtensionAPI } from \"@earendil-works/pi-coding-agent\";\n\nexport default function workspaceBoundary(pi: ExtensionAPI) {\n  const cwd = path.resolve(\"";

/// The extension source after the workspace directory.
pub const BOUNDARY_TAIL: &'static str = "\");\n\n  const mode = (): string => {\n    try {\n      const cfg = JSON.parse(fs.readFileSync(path.join(cwd, \".pi\", \"workspace.json\"), \"utf8\"));\n      return typeof cfg.mode === \"string\" ? cfg.mode : \"ask\";\n    } catch { return \"ask\"; }\n  };\n\n  const approved = (): Set<string> => {\n    try {\n      const data = JSON.parse(fs.readFileSync(path.join(cwd, \".pi\", \"approvals.json\"), \"utf8\"));\n      return new Set((data.approvedPaths ?? []).map((p: string) => path.normalize(p)));\n    } catch { return new Set(); }\n  };\n\n  const inside = (target: string): boolean => {\n    const rel = path.relative(cwd, target);\n    return rel === \"\" || (!rel.startsWith(\"..\") && !path.isAbsolute(rel));\n  };\n\n  for (const tool of [\"write\", \"edit\"] as const) {\n    pi.on(\"tool_call\", async (event, ctx) => {\n      if (event.toolName !== tool) return undefined;\n      const raw = (event.input as { path?: unknown }).path as string | undefined;\n      if (!raw) return undefined;\n      const abs = path.resolve(cwd, raw);\n      const m = mode();\n      if (m === \"allow\") return undefined;\n      if (inside(abs) || approved().has(path.normalize(abs))) return undefined;\n      const reason = m === \"deny\"\n        ? `写入位置应在工作空间内（cwd=${cwd}）`\n        : `写入位置应在工作空间内（cwd=${cwd}）；如确实需要请在工作空间产物页批准`;\n      return { block: true, reason };\n    });\n  }\n}\n";

/// The source of the boundary extension of a workspace: the directory,
/// with `/` separators, is written into it.
pub open spec fn boundary_source(real_dir: Seq<char>) -> Seq<char> {
    BOUNDARY_HEAD@ + replace_char(real_dir, '\\', '/') + BOUNDARY_TAIL@
}

/// The source of the boundary extension of a workspace (see
/// [`boundary_source`]).
pub fn constraint_ts_source(real_dir: &str) -> (r: String)
    ensures
        r@ == boundary_source(real_dir@),
{
    let dir = replace_chars(&chars_of(real_dir), '\\', '/');
    let s = concat_chars(&concat_chars(&chars_of(BOUNDARY_HEAD), &dir), &chars_of(BOUNDARY_TAIL));
    string_of(&s)
}

/// The write modes of a workspace: ask before writing outside it, allow
/// it, or deny it.
pub open spec fn is_mode(m: Seq<char>) -> bool {
    m == "ask"@ || m == "allow"@ || m == "deny"@
}

/// Checks a workspace mode: `ask`, `allow` and `deny` are taken as they
/// are; anything else is refused with `invalid mode: <mode>`.
pub fn check_mode(mode: &str) -> (r: Result<String, String>)
    ensures
        r is Ok <==> is_mode(mode@),
        r matches Ok(m) ==> m@ == mode@,
        r matches Err(e) ==> e@ == "invalid mode: "@ + mode@,
{
    if crate::text::same_text(mode, "ask") || crate::text::same_text(mode, "allow") || crate::text::same_text(mode, "deny") {
        Ok(mode.to_string())
    } else {
        let e = concat_chars(&chars_of("invalid mode: "), &chars_of(mode));
        Err(string_of(&e))
    }
}

/// A workspace's stored mode, `ask` when none is stored.
pub fn mode_or_default(stored: Option<String>) -> (r: String)
    ensures
        r@ == match stored {
            Some(m) => m@,
            None => "ask"@,
        },
{
    match stored {
        Some(m) => m,
        None => "ask".to_string(),
    }
}

} // verus!
