# proxmox_yew_comp (verified core)

The decision logic of the Proxmox Yew component library, written in Verus and proved
against its contracts.

- `src/` — the verified library: text helpers (`text`), heading slugs and ids (`slug`,
  `markdown`), the journal and log viewer paging (`journal`, `log_view`), the loadable
  component state machine (`loadable`), authentication state and cookies (`auth`), JSON
  values and the submit helpers of the property editors (`json`, `property`), HTTP helpers
  (`http`), guest configuration keys, disks and mount points (`guest`), firewall scopes,
  rules and options (`firewall`), record framing of streamed responses (`stream`),
  key/value grids and lists (`kv`), mount option sets (`options`), the virtual machine and
  container editors (`qemu`, `lxc`), pattern checks (`pattern`), display helpers
  (`display`), the login panel (`login`) and the Markdown editor (`markdown_editor`).
  Markdown is rendered to HTML in `markdown` with `pulldown-cmark`, behind trusted
  wrappers whose results are named.
- `tests/` — tests that run the library with the real outside crates.
- `app/` — conversions to and from `serde_json` and the serde forms of the library's
  records.
