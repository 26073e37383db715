# RustyEcho

A speech-to-text gateway. Clients upload WAV files, or stream 16 kHz mono audio over a
WebSocket while it is spoken, and get text back. Whisper does the transcription.

The logic is a Verus library. Every function in `src/` carries a contract, and Verus
proves it.

| module | what it holds |
|--------|---------------|
| `audio` | WAV files: what is refused, mixing down to mono, bringing to the target rate |
| `upload` | the upload form and its answer |
| `stream` | a streaming session as a state machine |
| `vad` | where a stream is cut into chunks of at most five seconds |
| `transcribe` | buffers, results, the mock and the bounded transcriber |
| `error` | errors and what clients are told of them |
| `whisper::language` | splitting a chunk by language |
| `whisper::tokens` | special tokens of a tokenizer |
| `whisper::choice` | the likeliest of the model's scores |
| `whisper::decode` | prompts, greedy decoding, the text of a chunk |
| `whisper::pool` | model instances and how requests are dealt out to them |
| `config` | settings |

Properties of the library as a whole are stated as public proof functions whose names
begin with `law_`.

`app/` is the program around the library: HTTP, WebSocket, the model on candle, and
everything in floating point. It reads the mel filter bank from `melfilters.bytes`, or
from the file that `WHISPER_MEL_FILTERS` names.

What is trusted without proof: `hound` reads WAV files, `tokenizers` looks up tokens
and turns them into text, `tokio` makes semaphores, and `str::trim` trims. Each is declared
with its contract next to where it is used.
