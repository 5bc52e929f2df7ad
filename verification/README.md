# comfy_serve

A proxy server in front of a [ComfyUI](https://github.com/Comfy-Org/ComfyUI)
instance that exposes workflows as simple REST endpoints, including
OpenAI-compatible image generation and edit routes.

The decisions of the server are a library verified with Verus (`src/`):

- `auth`, `api`: Argon2 password hashes, dashboard sessions, API keys, and
  the gates in front of each endpoint.
- `config`: the configuration, API key parsing, legacy config detection.
- `generate`: what each mapped parameter writes into a workflow, which
  workflow a model name selects, the random seeds of the OpenAI endpoints.
- `comfy`: preparing a prompt for ComfyUI (cache-busting salts), following
  the job on the websocket, reading the job history, the clean-up list.
- `images`: how an image parameter (URL, data URL, base64) reaches a node.
- `multipart`, `form`: a lenient `multipart/form-data` reader, boundary
  detection, and the fields of an image edit request.
- `json`, `json_text`: JSON values, editing workflow inputs, compact JSON text.
- `llm`: the request that asks an LLM for parameter mappings and the
  cleaning of its reply.

`app/` is the server itself: command line, configuration files, HTTP
routing, and the network calls to ComfyUI and the LLM. This build has no
embedded dashboard assets; `--dashboard` reports that.
