# job_mailer

The logic of Job Mailer, a desktop tool that drafts job-application emails with an
OpenAI-compatible chat completions API and sends them over SMTP, written in Verus with
its behaviour stated in contracts and proved.

- `src/text.rs` — the character-level model of text: Unicode white space, trimming,
  searching, cutting to a length.
- `src/generation.rs` — the chat completion request (endpoint, headers, messages, web
  search options) and what is read from the reply.
- `src/reply.rs` — turning the model's reply into the draft: the JSON object
  in it, the salutation the body must open with, the letter closing it must not end with.
- `src/history.rs` — history entries: building, recording (newest first, at most 50),
  deleting, listing newest first.
- `src/settings.rs` — the stored settings and what loading them yields.
- `src/smtp.rs` — parsing the two addresses, choosing SMTPS or STARTTLS, the attachment.
- `src/paths.rs` — the files of the application, as paths in text form.
- `app/` — the commands around the library: file and network I/O, serialisation, SMTP
  delivery with lettre, HTTP with reqwest.
